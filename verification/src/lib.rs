//! Per-client rate limiting: the decisions, counters and bookkeeping behind
//! an Axum rate-limiting middleware, with their contracts proved by Verus.
use vstd::prelude::*;

pub mod hashmap;
pub mod memory;
pub mod redis;
pub mod surrealdb;
pub mod table;

verus! {

/// How many requests one identifier may make inside one counting window.
pub const RATE_LIMIT_MAX: i32 = 3;

/// The identifier a request is limited under: the client address found in
/// the forwarding headers, else the address of the connection, else
/// `unknown`.
pub fn client_ip_or_unknown(from_headers: Option<String>, from_connect_info: Option<String>) -> (ip:
    String)
    ensures
        ip@ == (match from_headers {
            Some(h) => h@,
            None => match from_connect_info {
                Some(c) => c@,
                None => "unknown"@,
            },
        }),
{
    if let Some(ip) = from_headers {
        return ip;
    }
    if let Some(ip) = from_connect_info {
        return ip;
    }
    "unknown".to_owned()
}

} // verus!
