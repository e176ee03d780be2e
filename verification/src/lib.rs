//! Bridge between a line-oriented throttle-control wire protocol and
//! WebSocket gateway clients.
//!
//! The library holds everything that decides or computes: the wire-line
//! decoder and command encoder, the JSON codec for updates and throttle
//! snapshots, the shared state store, and the per-message decisions of the
//! relay loops. The surrounding process (sockets, the WebSocket server,
//! the broadcast buses, configuration and logging) lives outside and calls
//! in with plain values.

pub mod config;
pub mod dcc;
pub mod numfmt;
pub mod encode;
pub mod jmri;
pub mod json;
pub mod parse;
pub mod relay;
pub mod server;
pub mod store;

use vstd::prelude::*;

verus! {

/// Lower clamp bound for throttle velocity; negative velocity marks an
/// emergency stop.
pub const VELOCITY_MIN: i16 = -1;

/// Upper clamp bound for throttle velocity.
pub const VELOCITY_MAX: i16 = 129;

/// Character-for-character string equality.
pub fn str_eq(a: &str, b: &str) -> (r: bool)
    ensures
        r == (a@ == b@),
{
    let n = a.unicode_len();
    let m = b.unicode_len();
    if n != m {
        return false;
    }
    let mut i: usize = 0;
    while i < n
        invariant
            n == a@.len(),
            n == b@.len(),
            i <= n,
            forall|j: int| 0 <= j < i ==> a@[j] == b@[j],
        decreases n - i,
    {
        if a.get_char(i) != b.get_char(i) {
            return false;
        }
        i += 1;
    }
    proof {
        assert(a@ =~= b@);
    }
    true
}

} // verus!
