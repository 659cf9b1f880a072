use vstd::prelude::*;

use crate::server::{clients_wf, Server, ServerView};
use crate::structs::clients::Client;

verus! {

/// How long a client stays registered without sending a position message:
/// five seconds, in nanoseconds.
pub const CLIENT_TIMEOUT_NANOS: u64 = 5_000_000_000;

/// The time elapsed from `last` to `now`, zero if `now` is earlier.
pub open spec fn elapsed(last: u64, now: u64) -> int {
    if now >= last {
        now - last
    } else {
        0
    }
}

/// A client is active when its last position message is less than the
/// timeout old.
pub open spec fn is_active(c: Client, now: u64) -> bool {
    elapsed(c.last_message, now) < CLIENT_TIMEOUT_NANOS
}

/// The active clients of `clients`, in their order.
pub open spec fn active_clients(clients: Seq<Client>, now: u64) -> Seq<Client>
    decreases clients.len(),
{
    if clients.len() == 0 {
        seq![]
    } else {
        let rest = active_clients(clients.drop_last(), now);
        if is_active(clients.last(), now) {
            rest.push(clients.last())
        } else {
            rest
        }
    }
}

/// The state after the inactive clients are dropped.
pub open spec fn remove_inactive_spec(v: ServerView, now: u64) -> ServerView {
    ServerView { clients: active_clients(v.clients, now), ..v }
}

/// `kept` holds each of its clients at some index of `clients`.
pub open spec fn drawn_from(kept: Seq<Client>, clients: Seq<Client>) -> bool {
    forall|j: int| 0 <= j < kept.len() ==> exists|i: int| 0 <= i < clients.len() && clients[i] == #[trigger] kept[j]
}

/// What `active_clients` keeps: only active clients, each drawn from the
/// input, every active client of the input, and nothing twice that was
/// not twice before.
pub proof fn lemma_active_clients(clients: Seq<Client>, now: u64, next_user_id: u32)
    ensures
        active_clients(clients, now).len() <= clients.len(),
        forall|j: int|
            0 <= j < active_clients(clients, now).len() ==> is_active(
                #[trigger] active_clients(clients, now)[j],
                now,
            ),
        drawn_from(active_clients(clients, now), clients),
        forall|i: int|
            0 <= i < clients.len() && is_active(#[trigger] clients[i], now) ==> active_clients(
                clients,
                now,
            ).contains(clients[i]),
        clients_wf(clients, next_user_id) ==> clients_wf(active_clients(clients, now), next_user_id),
    decreases clients.len(),
{
    let a = active_clients(clients, now);
    if clients.len() == 0 {
    } else {
        let d = clients.drop_last();
        let r = active_clients(d, now);
        lemma_active_clients(d, now, next_user_id);
        let last = clients.last();
        let n = clients.len() - 1;
        assert(drawn_from(a, clients)) by {
            assert forall|j: int| 0 <= j < a.len() implies exists|i: int|
                0 <= i < clients.len() && clients[i] == #[trigger] a[j] by {
                if j < r.len() {
                    let i = choose|i: int| 0 <= i < d.len() && d[i] == r[j];
                    assert(clients[i] == a[j]);
                } else {
                    assert(clients[n] == a[j]);
                }
            }
        }
        assert forall|i: int| 0 <= i < clients.len() && is_active(#[trigger] clients[i], now) implies a.contains(
            clients[i],
        ) by {
            if i < n {
                assert(d[i] == clients[i]);
                assert(r.contains(d[i]));
                let j = choose|j: int| 0 <= j < r.len() && r[j] == d[i];
                assert(a[j] == clients[i]);
            } else {
                assert(a[a.len() - 1] == clients[i]);
            }
        }
        if clients_wf(clients, next_user_id) {
            assert(clients_wf(d, next_user_id)) by {
                assert forall|x: int, y: int|
                    0 <= x < d.len() && 0 <= y < d.len() && x != y implies #[trigger] d[x].addr
                    != #[trigger] d[y].addr by {
                    assert(clients[x].addr != clients[y].addr);
                }
                assert forall|x: int, y: int|
                    0 <= x < d.len() && 0 <= y < d.len() && x != y implies (#[trigger] d[x]).user_id
                    != (#[trigger] d[y]).user_id by {
                    assert(clients[x].user_id != clients[y].user_id);
                }
                assert forall|x: int| 0 <= x < d.len() implies 1 <= #[trigger] d[x].user_id
                    < next_user_id by {
                    assert(1 <= clients[x].user_id < next_user_id);
                }
            }
            if is_active(last, now) {
                assert forall|x: int| 0 <= x < r.len() implies #[trigger] r[x].addr != last.addr
                    && r[x].user_id != last.user_id by {
                    let i = choose|i: int| 0 <= i < d.len() && d[i] == r[x];
                    assert(clients[i] == r[x]);
                    assert(clients[i].addr != clients[n].addr);
                    assert(clients[i].user_id != clients[n].user_id);
                }
                assert forall|x: int, y: int|
                    0 <= x < a.len() && 0 <= y < a.len() && x != y implies #[trigger] a[x].addr
                    != #[trigger] a[y].addr by {
                    if x < r.len() && y < r.len() {
                        assert(r[x].addr != r[y].addr);
                    } else if x < r.len() {
                        assert(r[x].addr != last.addr);
                    } else {
                        assert(r[y].addr != last.addr);
                    }
                }
                assert forall|x: int, y: int|
                    0 <= x < a.len() && 0 <= y < a.len() && x != y implies (#[trigger] a[x]).user_id
                    != (#[trigger] a[y]).user_id by {
                    if x < r.len() && y < r.len() {
                        assert(r[x].user_id != r[y].user_id);
                    } else if x < r.len() {
                        assert(r[x].user_id != last.user_id);
                    } else {
                        assert(r[y].user_id != last.user_id);
                    }
                }
                assert forall|x: int| 0 <= x < a.len() implies 1 <= #[trigger] a[x].user_id
                    < next_user_id by {
                    if x < r.len() {
                        assert(1 <= r[x].user_id < next_user_id);
                    } else {
                        assert(1 <= clients[n].user_id < next_user_id);
                    }
                }
            }
        }
    }
}

impl Server {
    /// Drops every client whose last position message is at least the
    /// timeout old at time `now`, keeping the others in order; tells whether
    /// any client was dropped.
    pub fn remove_inactive_clients(&mut self, now: u64) -> (changed: bool)
        requires
            old(self).wf(),
        ensures
            final(self).wf(),
            final(self)@ == remove_inactive_spec(old(self)@, now),
            changed == (final(self)@.clients.len() != old(self)@.clients.len()),
    {
        let ghost v = self@;
        let clients_number = self.clients.len();
        let mut kept: Vec<Client> = Vec::new();
        let mut i: usize = 0;
        while i < clients_number
            invariant
                clients_number == self.clients.len(),
                self@ == v,
                i <= clients_number,
                kept@ == active_clients(v.clients.take(i as int), now),
            decreases clients_number - i,
        {
            let c = self.clients[i];
            assert(v.clients.take(i + 1).drop_last() =~= v.clients.take(i as int));
            let age: u64 = if now >= c.last_message { now - c.last_message } else { 0 };
            if age < CLIENT_TIMEOUT_NANOS {
                kept.push(c);
            }
            i = i + 1;
        }
        assert(v.clients.take(clients_number as int) =~= v.clients);
        proof {
            lemma_active_clients(v.clients, now, v.next_user_id);
        }
        self.clients = kept;
        self.clients.len() != clients_number
    }
}

} // verus!
