//! A SOCKS5 tunnel whose two ends scramble traffic with a byte-substitution
//! cipher keyed by a base64 password.

use vstd::prelude::*;

pub mod trusted;
pub mod cipher;
pub mod backoff;
pub mod session;
pub mod conf;
pub mod shutdown;

verus! {

/// The most connections a client or a server serves at once.
pub const MAX_CONNECTIONS: usize = 1024;

} // verus!
