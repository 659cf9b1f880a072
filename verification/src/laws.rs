use vstd::prelude::*;

use crate::cleaner::{
    active_clients, is_active, lemma_active_clients, remove_inactive_spec, CLIENT_TIMEOUT_NANOS,
};
use crate::handler::{message_step, ActionView};
use crate::float_bits::f32_bits_of_int;
use crate::framing::{frame_spec, kind_of, MessageKind};
use crate::messages::entities::{
    follow_possible, follow_reply, follow_update, has_user, lemma_user_index_unique, unfollow_reply,
};
use crate::messages::position::{
    lemma_position_update_wf, mover_id, position_acceptable, position_replies, position_update,
    same_level_others,
};
use crate::peer::PeerAddr;
use crate::server::{client_index, lemma_client_index_unique, registered, view_wf, ServerView};
use crate::spawner::{entity_broadcast, spawn_replies, spawn_update, spawned_entity};
use crate::structs::clients::Client;
use crate::structs::entities::Entity;
use crate::wire::{
    be_value, decode_position_update_spec, follow_entity_spec, follow_packet,
    le_bytes, le_value, lemma_le_bytes_of_value, lemma_le_value_of_bytes, movement_packet, parse_position_spec, position_request,
    PositionRequest, PositionUpdate, FOLLOW, MOVE, PING, UNFOLLOW,
};

verus! {

broadcast use vstd::std_specs::hash::group_hash_axioms;

/// What a client sends as a position message is what the server reads back
/// from its receive buffer: the coordinates and the level.
pub proof fn law_position_request_round_trip(buf: Seq<u8>, pos_x: u32, pos_y: u32, level: u8)
    requires
        buf.len() >= 10,
        buf.take(10) == position_request(pos_x, pos_y, level),
    ensures
        parse_position_spec(buf) == (PositionRequest { pos_x, pos_y, level }),
{
    let p = position_request(pos_x, pos_y, level);
    assert(buf[1] == p[1] && buf[2] == p[2] && buf[3] == p[3] && buf[4] == p[4]);
    assert(buf[5] == p[5] && buf[6] == p[6] && buf[7] == p[7] && buf[8] == p[8] && buf[9] == p[9]);
    lemma_le_value_of_bytes(pos_x);
    lemma_le_value_of_bytes(pos_y);
}

/// What the server sends as a movement message is what a client reads back:
/// the coordinates and the id of the one that moved.
pub proof fn law_movement_round_trip(buf: Seq<u8>, n: nat, pos_x: u32, pos_y: u32, user_id: u32)
    requires
        buf.len() >= 13,
        n >= 13,
        buf.take(13) == movement_packet(pos_x, pos_y, user_id),
    ensures
        decode_position_update_spec(buf, n) == Some(PositionUpdate { pos_x, pos_y, client_id: user_id }),
{
    let p = movement_packet(pos_x, pos_y, user_id);
    assert(buf[0] == p[0] && buf[1] == p[1] && buf[2] == p[2] && buf[3] == p[3] && buf[4] == p[4]);
    assert(buf[5] == p[5] && buf[6] == p[6] && buf[7] == p[7] && buf[8] == p[8]);
    assert(buf[9] == p[9] && buf[10] == p[10] && buf[11] == p[11] && buf[12] == p[12]);
    lemma_le_value_of_bytes(pos_x);
    lemma_le_value_of_bytes(pos_y);
    lemma_le_value_of_bytes(user_id);
}

/// A follow or unfollow message carries the entity id unchanged: bytes 1 to
/// 4, read big-endian, give it back.
pub proof fn law_follow_packet_round_trip(kind: u8, entity_id: u32)
    ensures
        follow_packet(kind, entity_id).len() == 6,
        follow_packet(kind, entity_id)[0] == kind,
        be_value(
            follow_packet(kind, entity_id)[1],
            follow_packet(kind, entity_id)[2],
            follow_packet(kind, entity_id)[3],
            follow_packet(kind, entity_id)[4],
        ) == entity_id,
{
    lemma_le_value_of_bytes(entity_id);
}

/// A ping is echoed to its sender byte for byte, and it neither registers
/// the sender nor refreshes its timeout: the state is unchanged.
pub proof fn law_ping_echoes_and_changes_nothing(
    v: ServerView,
    buf: Seq<u8>,
    msg_len: nat,
    addr: PeerAddr,
    now: u64,
)
    requires
        buf.len() == 1024,
        buf[0] == PING,
    ensures
        message_step(v, buf, msg_len, addr, now) == (v, ActionView::Send(
            seq![(addr, buf.take(msg_len as int))],
        )),
{
}

/// Messages of any type other than ping, position and follow are ignored:
/// nothing is sent and the state is unchanged.
pub proof fn law_other_messages_ignored(v: ServerView, buf: Seq<u8>, msg_len: nat, addr: PeerAddr, now: u64)
    requires
        buf.len() == 1024,
        buf[0] != PING,
        buf[0] != MOVE,
        buf[0] != FOLLOW,
    ensures
        message_step(v, buf, msg_len, addr, now) == (v, ActionView::Send(
            Seq::<(PeerAddr, Seq<u8>)>::empty(),
        )),
{
}

/// Every handled message keeps the invariant: distinct client addresses and
/// user ids, at most a hundred entities each under its own id.
pub proof fn law_message_keeps_invariant(
    v: ServerView,
    buf: Seq<u8>,
    msg_len: nat,
    addr: PeerAddr,
    now: u64,
)
    requires
        view_wf(v),
        buf.len() == 1024,
    ensures
        view_wf(message_step(v, buf, msg_len, addr, now).0),
{
    if buf[0] == MOVE && position_acceptable(v, addr) {
        lemma_position_update_wf(v, parse_position_spec(buf), addr, now);
    }
}

/// A follow message is carried out in two steps: handling it only sends the
/// unfollow message to the entity's current owner and changes nothing; the
/// entity is handed over afterwards, and the hand-over keeps the invariant.
pub proof fn law_follow_takes_two_steps(v: ServerView, buf: Seq<u8>, msg_len: nat, addr: PeerAddr, now: u64)
    requires
        view_wf(v),
        buf.len() == 1024,
        buf[0] == FOLLOW,
    ensures
        message_step(v, buf, msg_len, addr, now).0 == v,
        follow_possible(v, follow_entity_spec(buf), addr) ==> message_step(v, buf, msg_len, addr, now).1
            == ActionView::Unfollow(unfollow_reply(v, follow_entity_spec(buf))),
        !follow_possible(v, follow_entity_spec(buf), addr) ==> message_step(
            v,
            buf,
            msg_len,
            addr,
            now,
        ).1 == ActionView::Refused,
        follow_possible(v, follow_entity_spec(buf), addr) ==> view_wf(
            follow_update(v, follow_entity_spec(buf), addr),
        ),
{
    let id = follow_entity_spec(buf);
    if follow_possible(v, id, addr) {
        let w = follow_update(v, id, addr);
        assert(w.entities.dom() =~= v.entities.dom());
    }
}

/// After a position message the sender is registered with the coordinates
/// and level it sent and the time of the message; a sender that was
/// registered keeps its user id, a new one gets the next user id; every other
/// client is unchanged.
pub proof fn law_position_registers_sender(v: ServerView, req: PositionRequest, addr: PeerAddr, now: u64)
    requires
        view_wf(v),
        position_acceptable(v, addr),
    ensures
        ({
            let w = position_update(v, req, addr, now);
            &&& registered(w.clients, addr)
            &&& w.clients[client_index(w.clients, addr)] == (Client {
                addr,
                pos_x: req.pos_x,
                pos_y: req.pos_y,
                level: req.level,
                user_id: mover_id(v, addr),
                last_message: now,
            })
            &&& registered(v.clients, addr) ==> mover_id(v, addr) == v.clients[client_index(
                v.clients,
                addr,
            )].user_id && w.clients.len() == v.clients.len() && w.next_user_id == v.next_user_id
            &&& !registered(v.clients, addr) ==> mover_id(v, addr) == v.next_user_id && w.clients.len()
                == v.clients.len() + 1 && w.next_user_id == v.next_user_id + 1
            &&& forall|i: int|
                0 <= i < v.clients.len() && v.clients[i].addr != addr ==> #[trigger] w.clients[i]
                    == v.clients[i]
            &&& w.entities == v.entities
        }),
{
    let w = position_update(v, req, addr, now);
    lemma_position_update_wf(v, req, addr, now);
    let i = if registered(v.clients, addr) {
        client_index(v.clients, addr)
    } else {
        v.clients.len() as int
    };
    assert(w.clients[i].addr == addr);
    lemma_client_index_unique(w.clients, w.next_user_id, i);
    assert forall|j: int| 0 <= j < v.clients.len() && v.clients[j].addr != addr implies #[trigger] w.clients[j]
        == v.clients[j] by {
        if registered(v.clients, addr) {
            assert(j != i);
        }
    }
}

/// Membership in `same_level_others`: exactly the addresses of the clients
/// on `level` other than `sender`.
pub proof fn lemma_same_level_others(clients: Seq<Client>, sender: PeerAddr, level: u8)
    ensures
        forall|k: int|
            0 <= k < same_level_others(clients, sender, level).len() ==> (#[trigger] same_level_others(
                clients,
                sender,
                level,
            )[k] != sender && exists|i: int|
                0 <= i < clients.len() && clients[i].level == level && clients[i].addr
                    == same_level_others(clients, sender, level)[k]),
        forall|i: int|
            0 <= i < clients.len() && (#[trigger] clients[i]).level == level && clients[i].addr != sender
                ==> same_level_others(clients, sender, level).contains(clients[i].addr),
    decreases clients.len(),
{
    if clients.len() > 0 {
        let d = clients.drop_last();
        lemma_same_level_others(d, sender, level);
        let r = same_level_others(d, sender, level);
        let s = same_level_others(clients, sender, level);
        assert forall|k: int| 0 <= k < s.len() implies (#[trigger] s[k] != sender && exists|i: int|
            0 <= i < clients.len() && clients[i].level == level && clients[i].addr == s[k]) by {
            if k < r.len() {
                assert(s[k] == r[k]);
                let i = choose|i: int| 0 <= i < d.len() && d[i].level == level && d[i].addr == r[k];
                assert(clients[i] == d[i]);
            } else {
                assert(clients[clients.len() - 1] == clients.last());
            }
        }
        assert forall|i: int|
            0 <= i < clients.len() && (#[trigger] clients[i]).level == level && clients[i].addr
                != sender implies s.contains(clients[i].addr) by {
            if i < d.len() {
                assert(d[i] == clients[i]);
                let k = choose|k: int| 0 <= k < r.len() && r[k] == d[i].addr;
                assert(s[k] == r[k]);
            } else {
                assert(s[s.len() - 1] == clients[i].addr);
            }
        }
    }
}

/// A position message is forwarded to every other client on the sender's
/// level and to nobody else; the sender never receives its own update, and
/// every forwarded datagram carries the sender's coordinates and user id.
pub proof fn law_position_forwarded_to_same_level_others(
    v: ServerView,
    req: PositionRequest,
    addr: PeerAddr,
    now: u64,
)
    ensures
        ({
            let w = position_update(v, req, addr, now);
            let s = position_replies(v, req, addr, now);
            &&& forall|k: int|
                0 <= k < s.len() ==> (#[trigger] s[k]).0 != addr && s[k].1 == movement_packet(
                    req.pos_x,
                    req.pos_y,
                    mover_id(v, addr),
                ) && exists|i: int|
                    0 <= i < w.clients.len() && w.clients[i].level == req.level && w.clients[i].addr
                        == s[k].0
            &&& forall|i: int|
                0 <= i < w.clients.len() && (#[trigger] w.clients[i]).level == req.level
                    && w.clients[i].addr != addr ==> exists|k: int| 0 <= k < s.len() && s[k].0 == w.clients[i].addr
        }),
{
    let w = position_update(v, req, addr, now);
    let s = position_replies(v, req, addr, now);
    let t = same_level_others(w.clients, addr, req.level);
    lemma_same_level_others(w.clients, addr, req.level);
    assert forall|k: int| 0 <= k < s.len() implies (#[trigger] s[k]).0 != addr && s[k].1 == movement_packet(
        req.pos_x,
        req.pos_y,
        mover_id(v, addr),
    ) && exists|i: int|
        0 <= i < w.clients.len() && w.clients[i].level == req.level && w.clients[i].addr == s[k].0 by {
        assert(s[k].0 == t[k]);
    }
    assert forall|i: int|
        0 <= i < w.clients.len() && (#[trigger] w.clients[i]).level == req.level && w.clients[i].addr
            != addr implies exists|k: int| 0 <= k < s.len() && s[k].0 == w.clients[i].addr by {
        assert(t.contains(w.clients[i].addr));
        let k = choose|k: int| 0 <= k < t.len() && t[k] == w.clients[i].addr;
        assert(s[k].0 == t[k]);
    }
}

/// Among clients with distinct addresses, `same_level_others` names each
/// address at most once.
pub proof fn lemma_same_level_others_distinct(clients: Seq<Client>, sender: PeerAddr, level: u8)
    requires
        forall|i: int, j: int|
            0 <= i < clients.len() && 0 <= j < clients.len() && i != j ==> #[trigger] clients[i].addr
                != #[trigger] clients[j].addr,
    ensures
        forall|k1: int, k2: int|
            0 <= k1 < same_level_others(clients, sender, level).len() && 0 <= k2 < same_level_others(
                clients,
                sender,
                level,
            ).len() && k1 != k2 ==> #[trigger] same_level_others(clients, sender, level)[k1]
                != #[trigger] same_level_others(clients, sender, level)[k2],
    decreases clients.len(),
{
    if clients.len() > 0 {
        let d = clients.drop_last();
        let n = clients.len() - 1;
        assert forall|i: int, j: int|
            0 <= i < d.len() && 0 <= j < d.len() && i != j implies #[trigger] d[i].addr
                != #[trigger] d[j].addr by {
            assert(clients[i].addr != clients[j].addr);
        }
        lemma_same_level_others_distinct(d, sender, level);
        lemma_same_level_others(d, sender, level);
        let r = same_level_others(d, sender, level);
        let s = same_level_others(clients, sender, level);
        let c = clients.last();
        if c.level == level && c.addr != sender {
            assert forall|k: int| 0 <= k < r.len() implies #[trigger] r[k] != c.addr by {
                let i = choose|i: int| 0 <= i < d.len() && d[i].level == level && d[i].addr == r[k];
                assert(clients[i].addr != clients[n].addr);
            }
            assert forall|k1: int, k2: int| 0 <= k1 < s.len() && 0 <= k2 < s.len() && k1 != k2 implies #[trigger] s[k1]
                != #[trigger] s[k2] by {
                if k1 < r.len() && k2 < r.len() {
                    assert(r[k1] != r[k2]);
                } else if k1 < r.len() {
                    assert(r[k1] != c.addr);
                } else {
                    assert(r[k2] != c.addr);
                }
            }
        }
    }
}

/// When `b` sends a position message, every other registered client `a` on
/// the level it names gets exactly one datagram, the movement message with
/// `b`'s coordinates and user id; a client on another level gets none.
pub proof fn law_position_reaches_each_other_client_once(
    v: ServerView,
    req: PositionRequest,
    b: PeerAddr,
    now: u64,
    a: PeerAddr,
)
    requires
        view_wf(v),
        position_acceptable(v, b),
        registered(v.clients, a),
        a != b,
    ensures
        ({
            let s = position_replies(v, req, b, now);
            let ca = v.clients[client_index(v.clients, a)];
            &&& ca.level == req.level ==> exists|k: int|
                0 <= k < s.len() && s[k] == (a, movement_packet(req.pos_x, req.pos_y, mover_id(v, b)))
                    && forall|k2: int| 0 <= k2 < s.len() && #[trigger] s[k2].0 == a ==> k2 == k
            &&& ca.level != req.level ==> forall|k: int| 0 <= k < s.len() ==> #[trigger] s[k].0 != a
        }),
{
    let w = position_update(v, req, b, now);
    let s = position_replies(v, req, b, now);
    let t = same_level_others(w.clients, b, req.level);
    let ia = client_index(v.clients, a);
    law_position_registers_sender(v, req, b, now);
    lemma_position_update_wf(v, req, b, now);
    assert(w.clients[ia] == v.clients[ia]);
    lemma_same_level_others(w.clients, b, req.level);
    lemma_same_level_others_distinct(w.clients, b, req.level);
    let ca = v.clients[ia];
    assert forall|k: int| 0 <= k < s.len() && #[trigger] s[k].0 == a implies ca.level == req.level by {
        assert(s[k].0 == t[k]);
        let i = choose|i: int| 0 <= i < w.clients.len() && w.clients[i].level == req.level && w.clients[i].addr == t[k];
        if i != ia {
            assert(w.clients[i].addr != w.clients[ia].addr);
        }
    }
    if ca.level == req.level {
        assert(t.contains(w.clients[ia].addr));
        let k = choose|k: int| 0 <= k < t.len() && t[k] == w.clients[ia].addr;
        assert(s[k] == (a, movement_packet(req.pos_x, req.pos_y, mover_id(v, b))));
        assert forall|k2: int| 0 <= k2 < s.len() && #[trigger] s[k2].0 == a implies k2 == k by {
            assert(s[k2].0 == t[k2]);
            if k2 != k {
                assert(t[k2] != t[k]);
            }
        }
    }
}

/// The cleanup keeps exactly the active clients, in order, and keeps the
/// invariant.
pub proof fn law_cleanup_keeps_exactly_active(v: ServerView, now: u64)
    requires
        view_wf(v),
    ensures
        view_wf(remove_inactive_spec(v, now)),
        forall|c: Client|
            #![trigger remove_inactive_spec(v, now).clients.contains(c)]
            #![trigger v.clients.contains(c)]
            remove_inactive_spec(v, now).clients.contains(c) <==> (v.clients.contains(c) && is_active(
                c,
                now,
            )),
{
    lemma_active_clients(v.clients, now, v.next_user_id);
    let a = active_clients(v.clients, now);
    assert forall|c: Client| a.contains(c) <==> (v.clients.contains(c) && is_active(c, now)) by {
        if a.contains(c) {
            let j = choose|j: int| 0 <= j < a.len() && a[j] == c;
            assert(is_active(a[j], now));
            let i = choose|i: int| 0 <= i < v.clients.len() && v.clients[i] == a[j];
        }
        if v.clients.contains(c) && is_active(c, now) {
            let i = choose|i: int| 0 <= i < v.clients.len() && v.clients[i] == c;
            assert(is_active(v.clients[i], now));
        }
    }
}

/// Keeping the active clients twice at the same time is the same as once.
pub proof fn law_cleanup_idempotent(clients: Seq<Client>, now: u64)
    ensures
        active_clients(active_clients(clients, now), now) == active_clients(clients, now),
    decreases clients.len(),
{
    if clients.len() > 0 {
        let d = clients.drop_last();
        law_cleanup_idempotent(d, now);
        let r = active_clients(d, now);
        if is_active(clients.last(), now) {
            assert(r.push(clients.last()).drop_last() =~= r);
        }
    }
}

/// A client that sent a position message at `sent_at` survives every
/// cleanup in the following five seconds and is dropped by any cleanup after
/// that.
pub proof fn law_timeout(c: Client, sent_at: u64, now: u64)
    requires
        c.last_message == sent_at,
        sent_at <= now,
    ensures
        is_active(c, now) <==> now - sent_at < CLIENT_TIMEOUT_NANOS,
{
}

/// A freshly spawned entity follows nobody, so a follow message for it
/// cannot be carried out until it has an owner among the clients.
pub proof fn law_fresh_entity_has_no_owner(v: ServerView, x: i32, y: i32, entity_id: u32, addr: PeerAddr)
    requires
        view_wf(v),
        entity_id == v.next_entity_id,
    ensures
        !follow_possible(spawn_update(v, x, y), entity_id, addr),
{
    let w = spawn_update(v, x, y);
    if follow_possible(w, entity_id, addr) {
        assert(w.entities[entity_id] == spawned_entity(v.next_entity_id, x, y));
        let i = choose|i: int| 0 <= i < w.clients.len() && #[trigger] w.clients[i].user_id == 0u32;
        assert(1 <= v.clients[i].user_id);
    }
}

/// Spawning keeps the invariant while fewer than a hundred entities exist.
pub proof fn law_spawn_keeps_invariant(v: ServerView, x: i32, y: i32)
    requires
        view_wf(v),
        v.entities.len() < crate::server::MAX_ENTITIES,
    ensures
        view_wf(spawn_update(v, x, y)),
{
    let w = spawn_update(v, x, y);
    assert(!v.entities.contains_key(v.next_entity_id));
    assert(w.entities.dom() =~= v.entities.dom().insert(v.next_entity_id));
}

/// After a follow, the entity follows the sender: its owner is the user id
/// of the client at the sender's address, and nothing else changes; the
/// sender is then told with a 6-byte follow message: FOLLOW, the entity id
/// big-endian, and a zero byte.
pub proof fn law_follow_hands_over(v: ServerView, entity_id: u32, addr: PeerAddr)
    requires
        view_wf(v),
        follow_possible(v, entity_id, addr),
    ensures
        ({
            let w = follow_update(v, entity_id, addr);
            let r = follow_reply(entity_id, addr);
            &&& w.clients == v.clients
            &&& w.next_user_id == v.next_user_id
            &&& w.next_entity_id == v.next_entity_id
            &&& w.entities.dom() == v.entities.dom()
            &&& forall|i: int|
                0 <= i < v.clients.len() && #[trigger] v.clients[i].addr == addr
                    ==> w.entities[entity_id].user_id == v.clients[i].user_id
            &&& w.entities[entity_id] == (Entity { user_id: w.entities[entity_id].user_id, ..v.entities[entity_id] })
            &&& forall|k: u32| #[trigger] v.entities.contains_key(k) && k != entity_id ==> w.entities[k]
                == v.entities[k]
            &&& r.0 == addr
            &&& r.1.len() == 6
            &&& r.1[0] == FOLLOW
            &&& be_value(r.1[1], r.1[2], r.1[3], r.1[4]) == entity_id
            &&& r.1[5] == 0
        }),
{
    let w = follow_update(v, entity_id, addr);
    assert(w.entities.dom() =~= v.entities.dom());
    assert forall|i: int| 0 <= i < v.clients.len() && #[trigger] v.clients[i].addr == addr implies w.entities[entity_id].user_id
        == v.clients[i].user_id by {
        lemma_client_index_unique(v.clients, v.next_user_id, i);
    }
    law_follow_packet_round_trip(FOLLOW, entity_id);
}

/// What a follow message does when it arrives: nothing changes yet. When
/// the entity named by bytes 1 to 4 (big-endian) exists, the sender is
/// registered and some client owns the entity, whatever the levels of the
/// clients, the server answers with a 6-byte unfollow message (UNFOLLOW, the
/// entity id big-endian, a zero byte) to the entity's owner; otherwise the
/// message is refused.
pub proof fn law_follow_message(v: ServerView, buf: Seq<u8>, msg_len: nat, addr: PeerAddr, now: u64)
    requires
        view_wf(v),
        buf.len() == 1024,
        buf[0] == FOLLOW,
    ensures
        ({
            let id = be_value(buf[1], buf[2], buf[3], buf[4]);
            let w = message_step(v, buf, msg_len, addr, now).0;
            let act = message_step(v, buf, msg_len, addr, now).1;
            let ok = v.entities.contains_key(id) && (exists|i: int|
                0 <= i < v.clients.len() && #[trigger] v.clients[i].addr == addr) && (exists|j: int|
                0 <= j < v.clients.len() && #[trigger] v.clients[j].user_id == v.entities[id].user_id);
            &&& w == v
            &&& ok ==> (act matches ActionView::Unfollow(d) && d.1.len() == 6 && d.1[0] == UNFOLLOW
                && be_value(d.1[1], d.1[2], d.1[3], d.1[4]) == id && d.1[5] == 0 && forall|j: int|
                0 <= j < v.clients.len() && #[trigger] v.clients[j].user_id == v.entities[id].user_id
                    ==> d.0 == v.clients[j].addr)
            &&& !ok ==> act is Refused
        }),
{
    let id = be_value(buf[1], buf[2], buf[3], buf[4]);
    assert(follow_entity_spec(buf) == id);
    law_follow_packet_round_trip(UNFOLLOW, id);
    if follow_possible(v, id, addr) {
        let d = unfollow_reply(v, id);
        assert(message_step(v, buf, msg_len, addr, now).1 == ActionView::Unfollow(d));
        assert forall|j: int|
            0 <= j < v.clients.len() && #[trigger] v.clients[j].user_id == v.entities[id].user_id implies d.0
            == v.clients[j].addr by {
            lemma_user_index_unique(v.clients, v.next_user_id, j);
        }
    }
}

/// The kinds of stream requests: first byte 0x01 is `Type01`, 0x02 is
/// `Type02`, and any other byte is `Unknown` carrying that byte.
pub proof fn law_message_kinds(b: u8)
    ensures
        (kind_of(b) == MessageKind::Type01) <==> b == 0x01,
        (kind_of(b) == MessageKind::Type02) <==> b == 0x02,
        b != 0x01 && b != 0x02 ==> kind_of(b) == MessageKind::Unknown(b),
{
}

/// A stream request of `received` bytes is dispatched exactly when something
/// was received, the big-endian length in bytes 1 to 4 is positive and the
/// 5-byte header plus that many bytes fit in what was received; its payload
/// is then those bytes after the header, and its kind is given by its first
/// byte (0x01, 0x02, or unknown).
pub proof fn law_frame_request(buffer: Seq<u8>, received: nat)
    requires
        buffer.len() >= 5,
    ensures
        ({
            let len = be_value(buffer[1], buffer[2], buffer[3], buffer[4]);
            &&& frame_spec(buffer, received) is Some <==> (received > 0 && len > 0 && len + 5 <= received)
            &&& frame_spec(buffer, received) matches Some(f) ==> {
                &&& f.1 == buffer.subrange(5, 5 + len)
                &&& buffer[0] == 0x01 ==> f.0 == MessageKind::Type01
                &&& buffer[0] == 0x02 ==> f.0 == MessageKind::Type02
                &&& buffer[0] != 0x01 && buffer[0] != 0x02 ==> f.0 == MessageKind::Unknown(buffer[0])
            }
        }),
{
}

/// Spawning at `(x, y)` adds one entity under the next id, at the exact
/// single-precision values of `x` and `y`, on level 0, owned by nobody and
/// at full health; every earlier entity and every client stays; and every
/// client, in registry order, gets the movement message MOVE, the
/// little-endian bits of the two coordinates and a zero user id.
pub proof fn law_spawn_effect(v: ServerView, x: i32, y: i32)
    requires
        view_wf(v),
        v.entities.len() < crate::server::MAX_ENTITIES,
    ensures
        ({
            let w = spawn_update(v, x, y);
            let s = spawn_replies(v, x, y);
            let id = v.next_entity_id;
            &&& !v.entities.contains_key(id)
            &&& w.entities.contains_key(id)
            &&& w.entities[id] == (Entity {
                pos_x: f32_bits_of_int(x as int),
                pos_y: f32_bits_of_int(y as int),
                level: 0,
                id,
                user_id: 0,
                health: 100,
            })
            &&& forall|k: u32| #[trigger] v.entities.contains_key(k) ==> w.entities.contains_key(k)
                && w.entities[k] == v.entities[k]
            &&& w.entities.len() == v.entities.len() + 1
            &&& w.next_entity_id == id + 1
            &&& w.clients == v.clients
            &&& w.next_user_id == v.next_user_id
            &&& s.len() == v.clients.len()
            &&& forall|k: int|
                0 <= k < s.len() ==> (#[trigger] s[k]).0 == v.clients[k].addr && s[k].1 == seq![MOVE]
                    + le_bytes(f32_bits_of_int(x as int)) + le_bytes(f32_bits_of_int(y as int)) + le_bytes(0u32)
        }),
{
    let w = spawn_update(v, x, y);
    law_spawn_keeps_invariant(v, x, y);
    assert(!v.entities.contains_key(v.next_entity_id));
    assert(w.entities.dom() =~= v.entities.dom().insert(v.next_entity_id));
}

/// The movement message is 13 bytes: MOVE, then the little-endian bytes of
/// the x coordinate, of the y coordinate and of the user id, in that order.
pub proof fn law_movement_layout(pos_x: u32, pos_y: u32, user_id: u32)
    ensures
        ({
            let p = movement_packet(pos_x, pos_y, user_id);
            &&& p.len() == 13
            &&& p[0] == MOVE
            &&& le_value(p[1], p[2], p[3], p[4]) == pos_x
            &&& le_value(p[5], p[6], p[7], p[8]) == pos_y
            &&& le_value(p[9], p[10], p[11], p[12]) == user_id
        }),
{
    let p = movement_packet(pos_x, pos_y, user_id);
    lemma_le_value_of_bytes(pos_x);
    lemma_le_value_of_bytes(pos_y);
    lemma_le_value_of_bytes(user_id);
    assert(p[1] == le_bytes(pos_x)[0] && p[2] == le_bytes(pos_x)[1] && p[3] == le_bytes(pos_x)[2] && p[4] == le_bytes(pos_x)[3]);
    assert(p[5] == le_bytes(pos_y)[0] && p[6] == le_bytes(pos_y)[1] && p[7] == le_bytes(pos_y)[2] && p[8] == le_bytes(pos_y)[3]);
    assert(p[9] == le_bytes(user_id)[0] && p[10] == le_bytes(user_id)[1] && p[11] == le_bytes(user_id)[2] && p[12] == le_bytes(user_id)[3]);
}

/// The position message is 10 bytes: MOVE, then the little-endian bytes of
/// the x coordinate and of the y coordinate, then the level.
pub proof fn law_position_request_layout(pos_x: u32, pos_y: u32, level: u8)
    ensures
        ({
            let p = position_request(pos_x, pos_y, level);
            &&& p.len() == 10
            &&& p[0] == MOVE
            &&& le_value(p[1], p[2], p[3], p[4]) == pos_x
            &&& le_value(p[5], p[6], p[7], p[8]) == pos_y
            &&& p[9] == level
        }),
{
    let p = position_request(pos_x, pos_y, level);
    lemma_le_value_of_bytes(pos_x);
    lemma_le_value_of_bytes(pos_y);
    assert(p[1] == le_bytes(pos_x)[0] && p[2] == le_bytes(pos_x)[1] && p[3] == le_bytes(pos_x)[2] && p[4] == le_bytes(pos_x)[3]);
    assert(p[5] == le_bytes(pos_y)[0] && p[6] == le_bytes(pos_y)[1] && p[7] == le_bytes(pos_y)[2] && p[8] == le_bytes(pos_y)[3]);
}

/// The server reads a position message at fixed offsets: bytes 1 to 4 as the
/// little-endian x coordinate, 5 to 8 as y, byte 9 as the level.
pub proof fn law_position_parse_offsets(buf: Seq<u8>)
    requires
        buf.len() >= 10,
    ensures
        parse_position_spec(buf).pos_x == le_value(buf[1], buf[2], buf[3], buf[4]),
        parse_position_spec(buf).pos_y == le_value(buf[5], buf[6], buf[7], buf[8]),
        parse_position_spec(buf).level == buf[9],
{
}

/// A client reads a movement message at fixed offsets: bytes 1 to 4 as the
/// little-endian x coordinate, 5 to 8 as y, 9 to 12 as the id, and only when
/// the first byte is MOVE and at least 13 bytes came.
pub proof fn law_movement_decode_offsets(buf: Seq<u8>, n: nat)
    requires
        buf.len() >= 13,
    ensures
        decode_position_update_spec(buf, n) is Some <==> (buf[0] == MOVE && n >= 13),
        decode_position_update_spec(buf, n) matches Some(u) ==> u.pos_x == le_value(buf[1], buf[2], buf[3], buf[4])
            && u.pos_y == le_value(buf[5], buf[6], buf[7], buf[8]) && u.client_id == le_value(
            buf[9],
            buf[10],
            buf[11],
            buf[12],
        ),
{
}

/// What a position message does to the registry: it is refused, with the
/// state unchanged, exactly when the sender is unknown and no user id is
/// left. Otherwise the sender ends up registered, and its record holds the
/// coordinate bytes 1 to 8 and the level byte 9 that it sent and the time
/// `now`, under its earlier user id, or the next one if it was new; every
/// other client and every entity stays as it was.
pub proof fn law_position_message_updates_sender(
    v: ServerView,
    buf: Seq<u8>,
    msg_len: nat,
    addr: PeerAddr,
    now: u64,
)
    requires
        view_wf(v),
        buf.len() == 1024,
        buf[0] == MOVE,
    ensures
        ({
            let w = message_step(v, buf, msg_len, addr, now).0;
            let act = message_step(v, buf, msg_len, addr, now).1;
            let known = exists|j: int| 0 <= j < v.clients.len() && #[trigger] v.clients[j].addr == addr;
            &&& (act is Refused) <==> (!known && v.next_user_id == u32::MAX)
            &&& act is Refused ==> w == v
            &&& !(act is Refused) ==> {
                &&& exists|i: int| 0 <= i < w.clients.len() && #[trigger] w.clients[i].addr == addr
                &&& forall|i: int|
                    0 <= i < w.clients.len() && #[trigger] w.clients[i].addr == addr ==> {
                        &&& le_bytes(w.clients[i].pos_x) == buf.subrange(1, 5)
                        &&& le_bytes(w.clients[i].pos_y) == buf.subrange(5, 9)
                        &&& w.clients[i].level == buf[9]
                        &&& w.clients[i].last_message == now
                        &&& forall|j: int|
                            0 <= j < v.clients.len() && #[trigger] v.clients[j].addr == addr
                                ==> w.clients[i].user_id == v.clients[j].user_id
                        &&& !known ==> w.clients[i].user_id == v.next_user_id
                    }
                &&& forall|j: int|
                    0 <= j < v.clients.len() && #[trigger] v.clients[j].addr != addr ==> w.clients[j]
                        == v.clients[j]
                &&& w.clients.len() == (if known { v.clients.len() } else { v.clients.len() + 1 })
                &&& w.next_user_id == (if known { v.next_user_id as int } else { v.next_user_id + 1 })
                &&& w.entities == v.entities
                &&& w.next_entity_id == v.next_entity_id
            }
        }),
{
    let req = parse_position_spec(buf);
    let known = exists|j: int| 0 <= j < v.clients.len() && #[trigger] v.clients[j].addr == addr;
    assert(known == registered(v.clients, addr));
    if position_acceptable(v, addr) {
        let w = position_update(v, req, addr, now);
        law_position_registers_sender(v, req, addr, now);
        lemma_position_update_wf(v, req, addr, now);
        lemma_le_bytes_of_value(buf[1], buf[2], buf[3], buf[4]);
        lemma_le_bytes_of_value(buf[5], buf[6], buf[7], buf[8]);
        assert(buf.subrange(1, 5) =~= seq![buf[1], buf[2], buf[3], buf[4]]);
        assert(buf.subrange(5, 9) =~= seq![buf[5], buf[6], buf[7], buf[8]]);
        let ci = client_index(w.clients, addr);
        assert forall|i: int| 0 <= i < w.clients.len() && #[trigger] w.clients[i].addr == addr implies i == ci by {
            lemma_client_index_unique(w.clients, w.next_user_id, i);
        }
        assert forall|j: int| 0 <= j < v.clients.len() && #[trigger] v.clients[j].addr == addr implies mover_id(
            v,
            addr,
        ) == v.clients[j].user_id by {
            lemma_client_index_unique(v.clients, v.next_user_id, j);
        }
    }
}

/// `s` holds exactly one datagram to `a`.
pub open spec fn sent_once(s: Seq<(PeerAddr, Seq<u8>)>, a: PeerAddr) -> bool {
    exists|k: int|
        0 <= k < s.len() && s[k].0 == a && forall|k2: int| 0 <= k2 < s.len() && #[trigger] s[k2].0 == a ==> k2 == k
}

/// Where a position message goes: when it is taken in, the server sends the
/// movement message (MOVE, the sent coordinate bytes 1 to 8, and the
/// sender's user id) exactly once to each other client on the sent level,
/// and to nobody else; the sender is never told of its own move.
pub proof fn law_position_message_forwarded(
    v: ServerView,
    buf: Seq<u8>,
    msg_len: nat,
    addr: PeerAddr,
    now: u64,
)
    requires
        view_wf(v),
        buf.len() == 1024,
        buf[0] == MOVE,
        (exists|j: int| 0 <= j < v.clients.len() && #[trigger] v.clients[j].addr == addr) || v.next_user_id
            < u32::MAX,
    ensures
        ({
            let w = message_step(v, buf, msg_len, addr, now).0;
            let act = message_step(v, buf, msg_len, addr, now).1;
            act matches ActionView::Send(s) && {
                &&& forall|k: int|
                    0 <= k < s.len() ==> (#[trigger] s[k]).0 != addr && exists|i: int|
                        0 <= i < w.clients.len() && w.clients[i].addr == s[k].0 && w.clients[i].level
                            == buf[9]
                &&& forall|k: int, i: int|
                    0 <= k < s.len() && 0 <= i < w.clients.len() && #[trigger] w.clients[i].addr == addr
                        ==> (#[trigger] s[k]).1 == seq![MOVE] + buf.subrange(1, 9) + le_bytes(
                        w.clients[i].user_id,
                    )
                &&& forall|i: int|
                    0 <= i < w.clients.len() && (#[trigger] w.clients[i]).level == buf[9]
                        && w.clients[i].addr != addr ==> sent_once(s, w.clients[i].addr)
            }
        }),
{
    let req = parse_position_spec(buf);
    assert(position_acceptable(v, addr));
    let w = position_update(v, req, addr, now);
    let s = position_replies(v, req, addr, now);
    let t = same_level_others(w.clients, addr, req.level);
    assert(message_step(v, buf, msg_len, addr, now) == (w, ActionView::Send(s)));
    assert(message_step(v, buf, msg_len, addr, now).0 == w);
    assert(message_step(v, buf, msg_len, addr, now).1 == ActionView::Send(s));
    assert(message_step(v, buf, msg_len, addr, now).1->Send_0 == s);
    law_position_registers_sender(v, req, addr, now);
    lemma_position_update_wf(v, req, addr, now);
    lemma_same_level_others(w.clients, addr, req.level);
    lemma_same_level_others_distinct(w.clients, addr, req.level);
    lemma_le_bytes_of_value(buf[1], buf[2], buf[3], buf[4]);
    lemma_le_bytes_of_value(buf[5], buf[6], buf[7], buf[8]);
    let ci = client_index(w.clients, addr);
    assert forall|k: int, i: int|
        0 <= k < s.len() && 0 <= i < w.clients.len() && #[trigger] w.clients[i].addr == addr implies (
        #[trigger] s[k]).1 == seq![MOVE] + buf.subrange(1, 9) + le_bytes(w.clients[i].user_id) by {
        lemma_client_index_unique(w.clients, w.next_user_id, i);
        assert(seq![MOVE] + buf.subrange(1, 9) + le_bytes(w.clients[i].user_id) =~= movement_packet(
            req.pos_x,
            req.pos_y,
            mover_id(v, addr),
        ));
    }
    assert forall|k: int| 0 <= k < s.len() implies (#[trigger] s[k]).0 != addr && exists|i: int|
        0 <= i < w.clients.len() && w.clients[i].addr == s[k].0 && w.clients[i].level == buf[9] by {
        assert(s[k].0 == t[k]);
    }
    assert forall|i: int|
        0 <= i < w.clients.len() && (#[trigger] w.clients[i]).level == buf[9] && w.clients[i].addr
            != addr implies sent_once(s, w.clients[i].addr) by {
        assert(t.contains(w.clients[i].addr));
        let k = choose|k: int| 0 <= k < t.len() && t[k] == w.clients[i].addr;
        assert(s[k].0 == t[k]);
        assert forall|k2: int| 0 <= k2 < s.len() && #[trigger] s[k2].0 == w.clients[i].addr implies k2 == k by {
            assert(s[k2].0 == t[k2]);
            if k2 != k {
                assert(t[k2] != t[k]);
            }
        }
    }
}

/// The cleanup keeps the active clients in the order they were in: it is
/// the filter of the registry by activity.
pub proof fn law_cleanup_keeps_order(clients: Seq<Client>, now: u64)
    ensures
        active_clients(clients, now) == clients.filter(|c: Client| is_active(c, now)),
    decreases clients.len(),
{
    reveal_with_fuel(Seq::filter, 1);
    if clients.len() > 0 {
        law_cleanup_keeps_order(clients.drop_last(), now);
    }
}

/// An entity's movement message goes to every client once, in registry
/// order: MOVE, then the little-endian bytes of the entity's x and y
/// coordinates and of its owner's user id.
pub proof fn law_entity_broadcast(clients: Seq<Client>, e: Entity)
    ensures
        entity_broadcast(clients, e).len() == clients.len(),
        forall|k: int|
            0 <= k < clients.len() ==> (#[trigger] entity_broadcast(clients, e)[k]).0 == clients[k].addr
                && entity_broadcast(clients, e)[k].1 == seq![MOVE] + le_bytes(e.pos_x) + le_bytes(e.pos_y)
                + le_bytes(e.user_id),
{
}

} // verus!
