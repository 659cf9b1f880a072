use vstd::prelude::*;

use crate::peer::{Datagram, PeerAddr};
use crate::wire::prefix_to_vec;

verus! {

/// The reply to a ping: the received bytes, back to their sender.
pub open spec fn ping_reply(buf: Seq<u8>, msg_len: nat, addr: PeerAddr) -> (PeerAddr, Seq<u8>) {
    (addr, buf.take(msg_len as int))
}

/// Handles a ping of `msg_len` bytes held in `buf` from `addr`: the reply
/// echoes those bytes to the sender.
pub fn handle_ping(buf: &[u8; 1024], msg_len: usize, addr: PeerAddr) -> (r: Datagram)
    requires
        msg_len <= 1024,
    ensures
        r@ == ping_reply(buf@, msg_len as nat, addr),
{
    Datagram { to: addr, payload: prefix_to_vec(buf, msg_len) }
}

} // verus!
