use vstd::prelude::*;

use crate::peer::{sent, Datagram, PeerAddr};
use crate::server::{client_index, registered, view_wf, Server, ServerView};
use crate::structs::clients::Client;
use crate::wire::{
    bytes_to_vec, movement_packet, movement_packet_bytes, parse_position_request,
    parse_position_spec, PositionRequest,
};

verus! {

/// The state after a position message `req` from `addr` at time `now`: a
/// registered client gets the new coordinates, level and time and keeps its
/// user id; an unknown address is registered at the end with the next user
/// id, and the counter moves on.
pub open spec fn position_update(v: ServerView, req: PositionRequest, addr: PeerAddr, now: u64) -> ServerView {
    if registered(v.clients, addr) {
        let i = client_index(v.clients, addr);
        ServerView {
            clients: v.clients.update(
                i,
                Client {
                    addr,
                    pos_x: req.pos_x,
                    pos_y: req.pos_y,
                    level: req.level,
                    user_id: v.clients[i].user_id,
                    last_message: now,
                },
            ),
            ..v
        }
    } else {
        ServerView {
            clients: v.clients.push(
                Client {
                    addr,
                    pos_x: req.pos_x,
                    pos_y: req.pos_y,
                    level: req.level,
                    user_id: v.next_user_id,
                    last_message: now,
                },
            ),
            next_user_id: (v.next_user_id + 1) as u32,
            ..v
        }
    }
}

/// The user id of the client at `addr` after its position message.
pub open spec fn mover_id(v: ServerView, addr: PeerAddr) -> u32 {
    if registered(v.clients, addr) {
        v.clients[client_index(v.clients, addr)].user_id
    } else {
        v.next_user_id
    }
}

/// The addresses, in order, of the clients on `level` other than `sender`.
pub open spec fn same_level_others(clients: Seq<Client>, sender: PeerAddr, level: u8) -> Seq<PeerAddr>
    decreases clients.len(),
{
    if clients.len() == 0 {
        seq![]
    } else {
        let rest = same_level_others(clients.drop_last(), sender, level);
        let c = clients.last();
        if c.level == level && c.addr != sender {
            rest.push(c.addr)
        } else {
            rest
        }
    }
}

/// One datagram with `payload` to each address of `to`, in order.
pub open spec fn to_each(to: Seq<PeerAddr>, payload: Seq<u8>) -> Seq<(PeerAddr, Seq<u8>)> {
    to.map_values(|a: PeerAddr| (a, payload))
}

/// What the server sends after a position message: the movement message
/// with the new coordinates and the sender's user id, to every other client
/// on the same level (the sender included in the registry by then).
pub open spec fn position_replies(v: ServerView, req: PositionRequest, addr: PeerAddr, now: u64) -> Seq<
    (PeerAddr, Seq<u8>),
> {
    to_each(
        same_level_others(position_update(v, req, addr, now).clients, addr, req.level),
        movement_packet(req.pos_x, req.pos_y, mover_id(v, addr)),
    )
}

/// Whether a position message from `addr` can be taken in: the sender is
/// known, or a fresh user id is left to give it.
pub open spec fn position_acceptable(v: ServerView, addr: PeerAddr) -> bool {
    registered(v.clients, addr) || v.next_user_id < u32::MAX
}

/// The position update keeps the invariant.
pub proof fn lemma_position_update_wf(v: ServerView, req: PositionRequest, addr: PeerAddr, now: u64)
    requires
        view_wf(v),
        position_acceptable(v, addr),
    ensures
        view_wf(position_update(v, req, addr, now)),
{
    let w = position_update(v, req, addr, now);
    if registered(v.clients, addr) {
        let i = client_index(v.clients, addr);
        assert forall|a: int, b: int|
            0 <= a < w.clients.len() && 0 <= b < w.clients.len() && a != b implies #[trigger] w.clients[a].addr
            != #[trigger] w.clients[b].addr by {
            assert(v.clients[a].addr != v.clients[b].addr);
        }
        assert forall|a: int, b: int|
            0 <= a < w.clients.len() && 0 <= b < w.clients.len() && a != b implies (
            #[trigger] w.clients[a]).user_id != (#[trigger] w.clients[b]).user_id by {
            assert(v.clients[a].user_id != v.clients[b].user_id);
        }
        assert forall|a: int| 0 <= a < w.clients.len() implies 1 <= #[trigger] w.clients[a].user_id
            < w.next_user_id by {
            assert(1 <= v.clients[a].user_id < v.next_user_id);
        }
    } else {
        let n = v.clients.len() as int;
        assert forall|a: int, b: int|
            0 <= a < w.clients.len() && 0 <= b < w.clients.len() && a != b implies #[trigger] w.clients[a].addr
            != #[trigger] w.clients[b].addr by {
            if a < n && b < n {
                assert(v.clients[a].addr != v.clients[b].addr);
            } else if a < n {
                assert(v.clients[a].addr != addr);
            } else {
                assert(v.clients[b].addr != addr);
            }
        }
        assert forall|a: int, b: int|
            0 <= a < w.clients.len() && 0 <= b < w.clients.len() && a != b implies (
            #[trigger] w.clients[a]).user_id != (#[trigger] w.clients[b]).user_id by {
            if a < n && b < n {
                assert(v.clients[a].user_id != v.clients[b].user_id);
            } else if a < n {
                assert(v.clients[a].user_id < v.next_user_id);
            } else {
                assert(v.clients[b].user_id < v.next_user_id);
            }
        }
        assert forall|a: int| 0 <= a < w.clients.len() implies 1 <= #[trigger] w.clients[a].user_id
            < w.next_user_id by {
            if a < n {
                assert(1 <= v.clients[a].user_id < v.next_user_id);
            }
        }
    }
}

impl Server {
    /// Handles a position message held in `buf` from `addr` at time `now`:
    /// registers or updates the sender, then builds the movement message for
    /// every other client on the sender's level.
    pub fn handle_update_position(&mut self, buf: &[u8; 1024], addr: PeerAddr, now: u64) -> (out: Vec<
        Datagram,
    >)
        requires
            old(self).wf(),
            position_acceptable(old(self)@, addr),
        ensures
            final(self).wf(),
            final(self)@ == position_update(old(self)@, parse_position_spec(buf@), addr, now),
            sent(out@) == position_replies(old(self)@, parse_position_spec(buf@), addr, now),
    {
        let ghost v = self@;
        let req = parse_position_request(buf);
        let user_id_candidate = self.next_user_id;
        let client_count = self.clients.len();
        let user_id: u32;
        match self.find_client(addr) {
            Some(i) => {
                let old_client = self.clients[i];
                user_id = old_client.user_id;
                self.clients.set(
                    i,
                    Client {
                        addr,
                        pos_x: req.pos_x,
                        pos_y: req.pos_y,
                        level: req.level,
                        user_id,
                        last_message: now,
                    },
                );
            },
            None => {
                user_id = user_id_candidate;
                self.clients.push(
                    Client {
                        addr,
                        pos_x: req.pos_x,
                        pos_y: req.pos_y,
                        level: req.level,
                        user_id,
                        last_message: now,
                    },
                );
            },
        }
        if self.clients.len() != client_count {
            self.next_user_id = self.next_user_id + 1;
        }
        proof {
            lemma_position_update_wf(v, req, addr, now);
            assert(self@ == position_update(v, req, addr, now));
        }
        self.send_update_position(addr, req.pos_x, req.pos_y, req.level, user_id)
    }

    /// The movement message with the given coordinates and user id, to every
    /// client on `level` other than `addr`, in registry order.
    pub fn send_update_position(&self, addr: PeerAddr, pos_x: u32, pos_y: u32, level: u8, user_id: u32) -> (out:
        Vec<Datagram>)
        ensures
            sent(out@) == to_each(
                same_level_others(self@.clients, addr, level),
                movement_packet(pos_x, pos_y, user_id),
            ),
    {
        let ghost clients = self@.clients;
        let packet = movement_packet_bytes(pos_x, pos_y, user_id);
        let mut out: Vec<Datagram> = Vec::new();
        let n = self.clients.len();
        let mut k: usize = 0;
        while k < n
            invariant
                n == self.clients.len(),
                self@.clients == clients,
                k <= n,
                packet@ == movement_packet(pos_x, pos_y, user_id),
                sent(out@) == to_each(same_level_others(clients.take(k as int), addr, level), packet@),
            decreases n - k,
        {
            let other_client = self.clients[k];
            assert(clients.take(k + 1).drop_last() =~= clients.take(k as int));
            let ghost prev = sent(out@);
            if other_client.level == level && other_client.addr != addr {
                out.push(Datagram { to: other_client.addr, payload: bytes_to_vec(&packet) });
                assert(sent(out@) =~= prev.push((other_client.addr, packet@)));
            } else {
                assert(sent(out@) =~= prev);
            }
            assert(to_each(same_level_others(clients.take(k + 1), addr, level), packet@) =~= sent(out@));
            k = k + 1;
        }
        assert(clients.take(n as int) =~= clients);
        out
    }
}

} // verus!
