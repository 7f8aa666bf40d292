//! Addresses, URIs and the health probe.

use crate::text;
use crate::text::{decimal_text, same_text};
use vstd::prelude::*;
use vstd::string::*;

verus! {

/// The host that a probe reaches a server at which listens on all addresses.
pub const LOOPBACK: &'static str = "127.0.0.1";

/// The port where none is given.
pub const DEFAULT_PORT: &'static str = "50051";

/// The query that a probe sends.
pub const PROBE_QUERY: &'static str = "RETURN 1 AS ok";

/// The URI of the Flight server at this host and port.
pub open spec fn flight_uri(host: Seq<char>, port: Seq<char>) -> Seq<char> {
    "grpc://"@ + host + ":"@ + port
}

/// The address that a server at this host and port listens on.
pub fn listen_address(host: &str, port: u16) -> (r: String)
    ensures
        r@ == host@ + ":"@ + text::decimal(port as nat),
{
    host.to_owned().concat(":").concat(decimal_text(port as u64).as_str())
}

/// The location of a server at this host and port.
pub fn location(host: &str, port: u16) -> (r: String)
    ensures
        r@ == flight_uri(host@, text::decimal(port as nat)),
{
    "grpc://".to_owned().concat(host).concat(":").concat(decimal_text(port as u64).as_str())
}

/// The host that a probe reaches a server at which is set up with `host`.
pub open spec fn probe_host(host: Option<Seq<char>>) -> Seq<char> {
    match host {
        Some(h) => if h == "0.0.0.0"@ {
            LOOPBACK@
        } else {
            h
        },
        None => LOOPBACK@,
    }
}

/// The URI that a probe reaches a server at which is set up with this host and
/// this port, or with the defaults.
pub fn probe_uri(host: Option<String>, port: Option<String>) -> (r: String)
    ensures
        r@ == flight_uri(
            probe_host(
                match host {
                    Some(h) => Some(h@),
                    None => None,
                },
            ),
            match port {
                Some(p) => p@,
                None => DEFAULT_PORT@,
            },
        ),
{
    let host: String = match host {
        Some(h) => if same_text(h.as_str(), "0.0.0.0") {
            LOOPBACK.to_owned()
        } else {
            h
        },
        None => LOOPBACK.to_owned(),
    };
    let port: String = match port {
        Some(p) => p,
        None => DEFAULT_PORT.to_owned(),
    };
    "grpc://".to_owned().concat(host.as_str()).concat(":").concat(port.as_str())
}

/// The exit code of a probe whose query gave this many rows, or failed: zero
/// where there was a row.
pub fn probe_code(rows: Option<usize>) -> (r: i32)
    ensures
        r == (if rows matches Some(n) && n >= 1 {
            0i32
        } else {
            1i32
        }),
{
    match rows {
        Some(n) => if n >= 1 {
            0
        } else {
            1
        },
        None => 1,
    }
}

/// The location of a server is the address that it listens on, behind
/// "grpc://"; a client reaches it under the same address behind "http://".
pub proof fn location_is_the_address(
    host: &str,
    port: u16,
    address: String,
    place: String,
    uri: &str,
    reached: String,
)
    requires
        call_ensures(listen_address, (host, port), address),
        call_ensures(location, (host, port), place),
        uri@ == place@,
        call_ensures(crate::client::normalize_uri, (uri,), reached),
    ensures
        address@ == host@ + ":"@ + text::decimal(port as nat),
        place@ == "grpc://"@ + address@,
        reached@ == "http://"@ + address@,
{
    assert(place@ =~= "grpc://"@ + address@);
    crate::client::uri_keeps_what_follows(uri, address@, reached);
}

/// A probe reaches a server at the host and the port that it is set up with,
/// whatever they are, but for one host, which stands for all addresses: such a
/// server is reached at the loopback address, and so is one that is set up with
/// no host. Where no port is set up, it is 50051.
pub proof fn probe_reaches_the_server(
    host: Option<String>,
    port: Option<String>,
    r: String,
)
    requires
        call_ensures(probe_uri, (host, port), r),
    ensures
        ({
            let at = match host {
                Some(h) => if h@ == "0.0.0.0"@ {
                    "127.0.0.1"@
                } else {
                    h@
                },
                None => "127.0.0.1"@,
            };
            let on = match port {
                Some(p) => p@,
                None => "50051"@,
            };
            r@ == "grpc://"@ + at + ":"@ + on
        }),
        PROBE_QUERY@ == "RETURN 1 AS ok"@,
{
}

/// A probe succeeds where its query gave at least one row, and fails where it
/// gave none or could not be run.
pub proof fn probe_tells_rows(rows: Option<usize>, r: i32)
    requires
        call_ensures(probe_code, (rows,), r),
    ensures
        r == 0 || r == 1,
        rows is None ==> r == 1,
        rows matches Some(n) ==> (r == 0 <==> n > 0),
{
}

} // verus!
