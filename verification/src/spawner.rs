use rand::Rng;
use vstd::prelude::*;

use crate::float_bits::{f32_bits_of_int, int_to_f32_bits};
use crate::messages::position::to_each;
use crate::peer::{sent, Datagram, PeerAddr};
use crate::server::{Server, ServerView, MAX_ENTITIES};
use crate::structs::clients::Client;
use crate::structs::entities::Entity;
use crate::wire::{bytes_to_vec, movement_packet};

verus! {

broadcast use vstd::std_specs::hash::group_hash_axioms;

/// Where a spawn position lands on a level: unchanged, on every level.
pub open spec fn shift_spec(x: i32, y: i32, level: u8) -> (i32, i32) {
    (x, y)
}

/// Moves a spawn position onto the playable area of `level`; every
/// position is playable, so it is returned unchanged.
pub fn shift_pos_to_inbound(x: i32, y: i32, level: u8) -> (r: (i32, i32))
    ensures
        r == shift_spec(x, y, level),
{
    (x, y)
}

/// The lowest coordinate of a spawn position, on each axis.
pub const SPAWN_MIN: i32 = -100;

/// One past the highest coordinate of a spawn position, on each axis.
pub const SPAWN_END: i32 = 100;

/// One draw of `rand::thread_rng().gen_range(low..high)`: a value in
/// `[low, high)` (`gen_range` panics on an empty range, which `requires`
/// rules out). Which value comes out is left open: it comes from the
/// thread-local generator, seeded by the operating system, which panics only
/// if the system cannot provide a seed.
#[verifier::external_body]
fn random_in_range(low: i32, high: i32) -> (r: i32)
    requires
        low < high,
    ensures
        low <= r < high,
{
    rand::thread_rng().gen_range(low..high)
}

/// The entity spawned with id `id` at `(x, y)`: level 0, no owner, full
/// health, its coordinates the single-precision values of the shifted
/// position.
pub open spec fn spawned_entity(id: u32, x: i32, y: i32) -> Entity {
    let p = shift_spec(x, y, 0);
    Entity {
        pos_x: f32_bits_of_int(p.0 as int),
        pos_y: f32_bits_of_int(p.1 as int),
        level: 0,
        id,
        user_id: 0,
        health: 100,
    }
}

/// The state after an entity is spawned at `(x, y)`.
pub open spec fn spawn_update(v: ServerView, x: i32, y: i32) -> ServerView {
    ServerView {
        entities: v.entities.insert(v.next_entity_id, spawned_entity(v.next_entity_id, x, y)),
        next_entity_id: (v.next_entity_id + 1) as u32,
        ..v
    }
}

/// The addresses of `clients`, in order.
pub open spec fn all_addrs(clients: Seq<Client>) -> Seq<PeerAddr> {
    clients.map_values(|c: Client| c.addr)
}

/// The movement message of `e`, to every client in order.
pub open spec fn entity_broadcast(clients: Seq<Client>, e: Entity) -> Seq<(PeerAddr, Seq<u8>)> {
    to_each(all_addrs(clients), movement_packet(e.pos_x, e.pos_y, e.user_id))
}

/// What the server sends after spawning at `(x, y)`.
pub open spec fn spawn_replies(v: ServerView, x: i32, y: i32) -> Seq<(PeerAddr, Seq<u8>)> {
    entity_broadcast(v.clients, spawned_entity(v.next_entity_id, x, y))
}

/// Whether `x` is a coordinate whose single-precision value is exact.
pub open spec fn exact_coordinate(x: i32) -> bool {
    -16777216 < x < 16777216
}

impl Server {
    /// The movement message of `entity`, one datagram to every client.
    pub fn send_entity_to_clients(&self, entity: &Entity) -> (out: Vec<Datagram>)
        ensures
            sent(out@) == entity_broadcast(self@.clients, *entity),
    {
        let message = entity.format_message_packet_movement();
        let mut out: Vec<Datagram> = Vec::new();
        let n = self.clients.len();
        let mut k: usize = 0;
        while k < n
            invariant
                n == self.clients.len(),
                k <= n,
                message@ == movement_packet(entity.pos_x, entity.pos_y, entity.user_id),
                sent(out@) == to_each(all_addrs(self@.clients.take(k as int)), message@),
            decreases n - k,
        {
            let ghost prev = sent(out@);
            out.push(Datagram { to: self.clients[k].addr, payload: bytes_to_vec(&message) });
            assert(all_addrs(self@.clients.take(k + 1)) =~= all_addrs(self@.clients.take(k as int)).push(
                self@.clients[k as int].addr,
            ));
            assert(sent(out@) =~= prev.push((self@.clients[k as int].addr, message@)));
            assert(sent(out@) =~= to_each(all_addrs(self@.clients.take(k + 1)), message@));
            k = k + 1;
        }
        assert(self@.clients.take(n as int) =~= self@.clients);
        out
    }

    /// Spawns the next entity at `(x, y)` and builds its movement message
    /// for every client.
    pub fn spawn_entity_at(&mut self, x: i32, y: i32) -> (out: Vec<Datagram>)
        requires
            old(self).wf(),
            old(self)@.entities.len() < MAX_ENTITIES,
            exact_coordinate(x),
            exact_coordinate(y),
        ensures
            final(self).wf(),
            final(self)@ == spawn_update(old(self)@, x, y),
            sent(out@) == spawn_replies(old(self)@, x, y),
    {
        let ghost v = self@;
        let (sx, sy) = shift_pos_to_inbound(x, y, 0);
        let index_value = self.next_entity_id;
        let new_entity = Entity {
            pos_x: int_to_f32_bits(sx),
            pos_y: int_to_f32_bits(sy),
            level: 0,
            id: index_value,
            user_id: 0,
            health: 100,
        };
        assert(!v.entities.contains_key(index_value));
        self.entities.insert(index_value, new_entity);
        self.next_entity_id = self.next_entity_id + 1;
        assert(self@ == spawn_update(v, x, y));
        assert(self@.entities.dom() =~= v.entities.dom().insert(index_value));
        self.send_entity_to_clients(&new_entity)
    }

    /// One tick of the spawner: with fewer than `MAX_ENTITIES` entities, draws
    /// a random position in `[SPAWN_MIN, SPAWN_END)` on each axis, spawns an entity there
    /// and returns its movement message for every client; otherwise does
    /// nothing and returns `None`.
    pub fn spawn_tick(&mut self) -> (r: Option<Vec<Datagram>>)
        requires
            old(self).wf(),
        ensures
            final(self).wf(),
            r is None <==> old(self)@.entities.len() >= MAX_ENTITIES,
            r is None ==> final(self)@ == old(self)@,
            r matches Some(out) ==> exists|x: i32, y: i32|
                #![trigger spawn_update(old(self)@, x, y)]
                SPAWN_MIN <= x < SPAWN_END && SPAWN_MIN <= y < SPAWN_END && final(self)@ == spawn_update(
                    old(self)@,
                    x,
                    y,
                )
                    && sent(out@) == spawn_replies(old(self)@, x, y),
    {
        if self.entities.len() >= MAX_ENTITIES {
            return None;
        }
        let rand_x = random_in_range(SPAWN_MIN, SPAWN_END);
        let rand_y = random_in_range(SPAWN_MIN, SPAWN_END);
        let out = self.spawn_entity_at(rand_x, rand_y);
        Some(out)
    }
}

} // verus!
