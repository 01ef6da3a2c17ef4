//! Text of a child process's output: UTF-8 when it is valid UTF-8, else GBK,
//! the code page of Chinese Windows tools.

use vstd::prelude::*;
use vstd::utf8::{decode_utf8, valid_utf8};

verus! {

/// What `encoding_rs::GBK.decode` makes of a byte sequence: a byte-order mark
/// selects its own encoding, and malformed sequences become U+FFFD.
pub uninterp spec fn gbk_decode(bytes: Seq<u8>) -> Seq<char>;

/// Inputs small enough that decoding cannot overflow its buffer size.
pub open spec fn decodable_len(n: nat) -> bool {
    n <= (isize::MAX as int - 16) / 4
}

/// Calls `std::str::from_utf8`, which accepts exactly the valid UTF-8
/// sequences and then holds the characters they encode.
#[verifier::external_body]
fn utf8_text(bytes: &[u8]) -> (r: Option<String>)
    ensures
        match r {
            Some(s) => valid_utf8(bytes@) && s@ == decode_utf8(bytes@),
            None => !valid_utf8(bytes@),
        },
{
    match std::str::from_utf8(bytes) {
        Ok(s) => Some(s.to_string()),
        Err(_) => None,
    }
}

/// Calls `encoding_rs::GBK.decode` and keeps the text; the result is named
/// (`gbk_decode`), the GBK tables are not restated. The call's buffer size is
/// about three times the input, so inputs are bounded by `decodable_len`.
#[verifier::external_body]
fn gbk_text(bytes: &[u8]) -> (r: String)
    requires
        decodable_len(bytes@.len()),
    ensures
        r@ == gbk_decode(bytes@),
{
    let (decoded, _, _) = encoding_rs::GBK.decode(bytes);
    decoded.into_owned()
}

/// The text of output bytes: their UTF-8 reading when they are valid UTF-8,
/// else their GBK reading.
pub fn decode_bytes(bytes: &[u8]) -> (r: String)
    requires
        decodable_len(bytes@.len()),
    ensures
        valid_utf8(bytes@) ==> r@ == decode_utf8(bytes@),
        !valid_utf8(bytes@) ==> r@ == gbk_decode(bytes@),
{
    match utf8_text(bytes) {
        Some(s) => s,
        None => gbk_text(bytes),
    }
}

} // verus!
