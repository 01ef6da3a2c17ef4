# netools

Network diagnostics toolkit: ping, TCP probes and port scans, DNS comparison,
HTTP probes, traceroute, a one-shot diagnosis of a host, and a local-network
helper that finds the current IPv4 subnet, scans it and suggests addresses
that look free.

The library in `src/` holds the decisions and is verified with Verus: every
public function states its result in `requires`/`ensures` over mathematical
models, and the `law_*` proof functions state properties that span functions
(for instance, that scan candidates are never addresses found in use, or that
`--json` may stand anywhere on the command line).

Layout:

- `src/cli.rs` – command-line parsing (subcommands, options, port lists, headers).
- `src/net.rs`, `src/num.rs`, `src/text.rs` – IPv4 addresses and CIDR networks,
  decimal numbers, and the text primitives the parsers are built on.
- `src/lan.rs`, `src/scan.rs`, `src/order.rs` – interfaces, default routes and
  neighbour tables; planning a subnet scan and reading its results.
- `src/diagnostic.rs` – target normalisation and the grading of each diagnosis step.
- `src/ping_output.rs`, `src/trace.rs`, `src/decode.rs` – reading the output of
  the system's `ping`, `traceroute` and `tracert`.
- `src/tcp.rs`, `src/fingerprint.rs`, `src/dns.rs`, `src/http.rs` – the
  bookkeeping around TCP, DNS and HTTP probes: the method check, the redirect
  limit, what a response is reported as, and the summary of a server's
  certificate read from its DER bytes.
- `src/report.rs` – the human-readable reports.
- `app/` – the command-line program: it runs the probes (processes, sockets,
  resolvers, HTTP) and prints the library's reports.
- `tests/` – tests of the library on concrete inputs.
