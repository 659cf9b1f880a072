use vstd::prelude::*;

use crate::peer::PeerAddr;

verus! {

/// A client that sent position messages. `pos_x` and `pos_y` hold the bit
/// patterns of the single-precision coordinates the client sent;
/// `last_message` is the time of its last position message, in nanoseconds
/// on the server's monotonic clock.
#[derive(Clone, Copy, Debug, PartialEq, Eq, Structural)]
pub struct Client {
    pub addr: PeerAddr,
    pub pos_x: u32,
    pub pos_y: u32,
    pub level: u8,
    pub user_id: u32,
    pub last_message: u64,
}

} // verus!
