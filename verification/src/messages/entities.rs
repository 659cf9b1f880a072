use vstd::prelude::*;

use crate::peer::{Datagram, PeerAddr};
use crate::server::{client_index, registered, Server, ServerView};
use crate::structs::clients::Client;
use crate::structs::entities::Entity;
use crate::wire::{
    bytes_to_vec, follow_entity_id, follow_entity_spec, follow_packet, follow_packet_bytes, FOLLOW,
    UNFOLLOW,
};

verus! {

broadcast use vstd::std_specs::hash::group_hash_axioms;

/// Whether some client has user id `user_id`.
pub open spec fn has_user(clients: Seq<Client>, user_id: u32) -> bool {
    exists|i: int| 0 <= i < clients.len() && #[trigger] clients[i].user_id == user_id
}

/// The index of the client with user id `user_id` (meaningful when there is
/// one; unique under the invariant).
pub open spec fn user_index(clients: Seq<Client>, user_id: u32) -> int {
    choose|i: int| 0 <= i < clients.len() && #[trigger] clients[i].user_id == user_id
}

/// Whether a follow message for entity `entity_id` from `addr` can be
/// carried out: the entity exists, the sender is a registered client, and the
/// entity's current owner is a registered client.
pub open spec fn follow_possible(v: ServerView, entity_id: u32, addr: PeerAddr) -> bool {
    &&& v.entities.contains_key(entity_id)
    &&& registered(v.clients, addr)
    &&& has_user(v.clients, v.entities[entity_id].user_id)
}

/// The state after the follow: the entity now follows the sender.
pub open spec fn follow_update(v: ServerView, entity_id: u32, addr: PeerAddr) -> ServerView {
    ServerView {
        entities: v.entities.insert(
            entity_id,
            Entity { user_id: v.clients[client_index(v.clients, addr)].user_id, ..v.entities[entity_id] },
        ),
        ..v
    }
}

/// The first message of a follow: an unfollow message to the entity's
/// current owner.
pub open spec fn unfollow_reply(v: ServerView, entity_id: u32) -> (PeerAddr, Seq<u8>) {
    let prev = v.clients[user_index(v.clients, v.entities[entity_id].user_id)];
    (prev.addr, follow_packet(UNFOLLOW, entity_id))
}

/// The last message of a follow: a follow message to the sender.
pub open spec fn follow_reply(entity_id: u32, addr: PeerAddr) -> (PeerAddr, Seq<u8>) {
    (addr, follow_packet(FOLLOW, entity_id))
}

/// Under the invariant, the client at index `i` is the one that
/// `user_index` picks for its user id.
pub proof fn lemma_user_index_unique(clients: Seq<Client>, next_user_id: u32, i: int)
    requires
        crate::server::clients_wf(clients, next_user_id),
        0 <= i < clients.len(),
    ensures
        has_user(clients, clients[i].user_id),
        user_index(clients, clients[i].user_id) == i,
{
    let u = clients[i].user_id;
    assert(has_user(clients, u));
    let k = user_index(clients, u);
    assert(0 <= k < clients.len() && clients[k].user_id == u);
}

impl Server {
    /// The index of the client with user id `user_id`, if any.
    pub fn find_user(&self, user_id: u32) -> (r: Option<usize>)
        ensures
            r is None <==> !has_user(self@.clients, user_id),
            r matches Some(i) ==> i < self@.clients.len() && self@.clients[i as int].user_id == user_id,
            crate::server::clients_wf(self@.clients, self@.next_user_id) ==> (r matches Some(i) ==> i
                == user_index(self@.clients, user_id)),
    {
        let n = self.clients.len();
        let mut i: usize = 0;
        while i < n
            invariant
                n == self.clients.len(),
                i <= n,
                forall|j: int| 0 <= j < i ==> self.clients@[j].user_id != user_id,
            decreases n - i,
        {
            if self.clients[i].user_id == user_id {
                proof {
                    if crate::server::clients_wf(self@.clients, self@.next_user_id) {
                        lemma_user_index_unique(self@.clients, self@.next_user_id, i as int);
                    }
                }
                return Some(i);
            }
            i = i + 1;
        }
        None
    }

    /// First step of a follow message held in `buf` from `addr`: looks up
    /// the entity named by bytes 1 to 4 (big-endian), the sender and the
    /// entity's current owner, and returns the unfollow message for that
    /// owner. Nothing changes yet: the entity is handed over by
    /// `finish_follow`, once that message has been delivered.
    pub fn handle_follow(&self, buf: &[u8; 1024], addr: PeerAddr) -> (r: Datagram)
        requires
            crate::server::clients_wf(self@.clients, self@.next_user_id),
            follow_possible(self@, follow_entity_spec(buf@), addr),
        ensures
            r@ == unfollow_reply(self@, follow_entity_spec(buf@)),
    {
        let entity_id = follow_entity_id(buf);
        let entity = match self.entities.get(&entity_id) {
            Some(e) => *e,
            None => {
                assert(false);
                return Datagram { to: addr, payload: Vec::new() };
            },
        };
        let prev_client = match self.find_user(entity.user_id) {
            Some(i) => self.clients[i],
            None => {
                assert(false);
                return Datagram { to: addr, payload: Vec::new() };
            },
        };
        let unfollow = follow_packet_bytes(UNFOLLOW, entity_id);
        Datagram { to: prev_client.addr, payload: bytes_to_vec(&unfollow) }
    }

    /// Last step of a follow message held in `buf` from `addr`, taken after
    /// the unfollow message went out: the entity now follows the sender, and
    /// the sender gets the follow message.
    pub fn finish_follow(&mut self, buf: &[u8; 1024], addr: PeerAddr) -> (r: Datagram)
        requires
            old(self).wf(),
            follow_possible(old(self)@, follow_entity_spec(buf@), addr),
        ensures
            final(self).wf(),
            final(self)@ == follow_update(old(self)@, follow_entity_spec(buf@), addr),
            r@ == follow_reply(follow_entity_spec(buf@), addr),
    {
        let ghost v = self@;
        let entity_id = follow_entity_id(buf);
        let entity = match self.entities.get(&entity_id) {
            Some(e) => *e,
            None => {
                assert(false);
                return Datagram { to: addr, payload: Vec::new() };
            },
        };
        let client = match self.find_client(addr) {
            Some(i) => self.clients[i],
            None => {
                assert(false);
                return Datagram { to: addr, payload: Vec::new() };
            },
        };
        self.entities.insert(entity_id, Entity { user_id: client.user_id, ..entity });
        assert(self@ == follow_update(v, entity_id, addr));
        proof {
            assert(self@.entities.dom() =~= v.entities.dom());
        }
        let follow = follow_packet_bytes(FOLLOW, entity_id);
        Datagram { to: addr, payload: bytes_to_vec(&follow) }
    }
}

} // verus!
