use vstd::prelude::*;

use crate::messages::entities::{follow_possible, unfollow_reply};
use crate::messages::ping::{handle_ping, ping_reply};
use crate::messages::position::{position_acceptable, position_replies, position_update};
use crate::peer::{sent, Datagram, PeerAddr};
use crate::server::{Server, ServerView};
use crate::wire::{follow_entity_id, follow_entity_spec, parse_position_spec, FOLLOW, MOVE, PING};

verus! {

broadcast use vstd::std_specs::hash::group_hash_axioms;

/// What the server does with one received datagram.
#[derive(Debug)]
pub enum Action {
    /// Send these datagrams; the state already reflects the message.
    Send(Vec<Datagram>),
    /// A follow message: send this unfollow message to the entity's current
    /// owner; once it is delivered, call `finish_follow` with the same message
    /// before anything else changes the state.
    Unfollow(Datagram),
    /// The message cannot be carried out; nothing changed.
    Refused,
}

/// An action as mathematical values.
pub enum ActionView {
    Send(Seq<(PeerAddr, Seq<u8>)>),
    Unfollow((PeerAddr, Seq<u8>)),
    Refused,
}

impl View for Action {
    type V = ActionView;

    open spec fn view(&self) -> ActionView {
        match self {
            Action::Send(out) => ActionView::Send(sent(out@)),
            Action::Unfollow(d) => ActionView::Unfollow(d@),
            Action::Refused => ActionView::Refused,
        }
    }
}

/// What the server does with a datagram of `msg_len` bytes held in `buf`
/// from `addr` at time `now`, by its first byte, and the state after it: a
/// ping is echoed; a position message updates the registry and is forwarded;
/// a follow message first sends the unfollow message to the entity's owner,
/// changing nothing yet; anything else is ignored. Refused, with the state
/// unchanged, when the message cannot be carried out: a follow whose entity,
/// sender or current owner is unknown, or a new client when no user id is
/// left.
pub open spec fn message_step(v: ServerView, buf: Seq<u8>, msg_len: nat, addr: PeerAddr, now: u64) -> (
    ServerView,
    ActionView,
) {
    if buf[0] == PING {
        (v, ActionView::Send(seq![ping_reply(buf, msg_len, addr)]))
    } else if buf[0] == MOVE {
        let req = parse_position_spec(buf);
        if position_acceptable(v, addr) {
            (position_update(v, req, addr, now), ActionView::Send(position_replies(v, req, addr, now)))
        } else {
            (v, ActionView::Refused)
        }
    } else if buf[0] == FOLLOW {
        let id = follow_entity_spec(buf);
        if follow_possible(v, id, addr) {
            (v, ActionView::Unfollow(unfollow_reply(v, id)))
        } else {
            (v, ActionView::Refused)
        }
    } else {
        (v, ActionView::Send(seq![]))
    }
}

impl Server {
    /// Whether a follow message for `entity_id` from `addr` can be carried
    /// out.
    pub fn can_follow(&self, entity_id: u32, addr: PeerAddr) -> (r: bool)
        requires
            self.wf(),
        ensures
            r == follow_possible(self@, entity_id, addr),
    {
        let owner = match self.entities.get(&entity_id) {
            Some(e) => e.user_id,
            None => {
                return false;
            },
        };
        if self.find_client(addr).is_none() {
            return false;
        }
        self.find_user(owner).is_some()
    }

    /// Whether a position message from `addr` can be taken in.
    pub fn can_update_position(&self, addr: PeerAddr) -> (r: bool)
        ensures
            r == position_acceptable(self@, addr),
    {
        self.find_client(addr).is_some() || self.next_user_id < u32::MAX
    }

    /// Handles one received datagram of `msg_len` bytes held in `buf` from
    /// `addr` at time `now`: updates the state and says what to send.
    pub fn handle_message(&mut self, buf: &[u8; 1024], msg_len: usize, addr: PeerAddr, now: u64) -> (r:
        Action)
        requires
            old(self).wf(),
            msg_len <= 1024,
        ensures
            final(self).wf(),
            final(self)@ == message_step(old(self)@, buf@, msg_len as nat, addr, now).0,
            r@ == message_step(old(self)@, buf@, msg_len as nat, addr, now).1,
    {
        if buf[0] == PING {
            let reply = handle_ping(buf, msg_len, addr);
            let mut out: Vec<Datagram> = Vec::new();
            out.push(reply);
            assert(sent(out@) =~= seq![ping_reply(buf@, msg_len as nat, addr)]);
            Action::Send(out)
        } else if buf[0] == MOVE {
            if self.can_update_position(addr) {
                Action::Send(self.handle_update_position(buf, addr, now))
            } else {
                Action::Refused
            }
        } else if buf[0] == FOLLOW {
            let id = follow_entity_id(buf);
            if self.can_follow(id, addr) {
                Action::Unfollow(self.handle_follow(buf, addr))
            } else {
                Action::Refused
            }
        } else {
            let out: Vec<Datagram> = Vec::new();
            assert(sent(out@) =~= seq![]);
            Action::Send(out)
        }
    }
}

} // verus!
