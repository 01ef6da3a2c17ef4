//! Network diagnostics: the verified decisions behind ping, TCP, DNS, HTTP,
//! traceroute, the one-shot diagnosis and the local-network helper.

use vstd::prelude::*;

pub mod cli;
pub mod decode;
pub mod diagnostic;
pub mod dns;
pub mod fingerprint;
pub mod http;
pub mod lan;
pub mod net;
pub mod num;
pub mod order;
pub mod ping_output;
pub mod report;
pub mod scan;
pub mod tcp;
pub mod text;
pub mod trace;

verus! {
} // verus!
