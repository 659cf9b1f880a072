use vstd::prelude::*;

use crate::wire::{movement_packet, movement_packet_bytes};

verus! {

/// A spawned entity. `pos_x` and `pos_y` hold the bit patterns of its
/// single-precision coordinates; `user_id` is the id of the client it
/// follows (0 for none).
#[derive(Clone, Copy, Debug, PartialEq, Eq, Structural)]
pub struct Entity {
    pub pos_x: u32,
    pub pos_y: u32,
    pub level: u8,
    pub id: u32,
    pub user_id: u32,
    pub health: u8,
}

impl Entity {
    /// The 13-byte movement message for this entity: the MOVE byte, then the
    /// little-endian bytes of `pos_x`, `pos_y` and `user_id`.
    pub fn format_message_packet_movement(&self) -> (r: [u8; 13])
        ensures
            r@ == movement_packet(self.pos_x, self.pos_y, self.user_id),
    {
        movement_packet_bytes(self.pos_x, self.pos_y, self.user_id)
    }
}

} // verus!
