use std::collections::HashMap;

use vstd::prelude::*;

use crate::peer::PeerAddr;
use crate::structs::clients::Client;
use crate::structs::entities::Entity;

verus! {

broadcast use vstd::std_specs::hash::group_hash_axioms;

/// The most entities the spawner keeps alive at once.
pub const MAX_ENTITIES: usize = 100;

/// The shared state of the server: the clients registered by position
/// messages (in registration order), the spawned entities by id, and the
/// two id counters.
pub struct Server {
    pub clients: Vec<Client>,
    pub entities: HashMap<u32, Entity>,
    pub next_user_id: u32,
    pub next_entity_id: u32,
}

/// The server's state as mathematical values.
pub struct ServerView {
    pub clients: Seq<Client>,
    pub entities: Map<u32, Entity>,
    pub next_user_id: u32,
    pub next_entity_id: u32,
}

impl View for Server {
    type V = ServerView;

    open spec fn view(&self) -> ServerView {
        ServerView {
            clients: self.clients@,
            entities: self.entities@,
            next_user_id: self.next_user_id,
            next_entity_id: self.next_entity_id,
        }
    }
}

/// No two clients share an address or a user id, and every user id is at
/// least 1 and below the next id to hand out.
pub open spec fn clients_wf(clients: Seq<Client>, next_user_id: u32) -> bool {
    &&& forall|i: int, j: int|
        0 <= i < clients.len() && 0 <= j < clients.len() && i != j ==> #[trigger] clients[i].addr
            != #[trigger] clients[j].addr
    &&& forall|i: int, j: int|
        0 <= i < clients.len() && 0 <= j < clients.len() && i != j ==> (#[trigger] clients[i]).user_id
            != (#[trigger] clients[j]).user_id
    &&& forall|i: int| 0 <= i < clients.len() ==> 1 <= #[trigger] clients[i].user_id < next_user_id
}

/// At most `MAX_ENTITIES` entities, each held under its own id; the ids are
/// below the next id to hand out, which is one more than the number of
/// entities.
pub open spec fn entities_wf(entities: Map<u32, Entity>, next_entity_id: u32) -> bool {
    &&& entities.dom().finite()
    &&& entities.len() <= MAX_ENTITIES
    &&& next_entity_id == entities.len() + 1
    &&& forall|id: u32|
        #[trigger] entities.contains_key(id) ==> 1 <= id < next_entity_id && entities[id].id == id
}

/// The invariant of the server's state.
pub open spec fn view_wf(v: ServerView) -> bool {
    &&& clients_wf(v.clients, v.next_user_id)
    &&& entities_wf(v.entities, v.next_entity_id)
    &&& v.next_user_id >= 1
}

/// Whether some client has address `addr`.
pub open spec fn registered(clients: Seq<Client>, addr: PeerAddr) -> bool {
    exists|i: int| 0 <= i < clients.len() && #[trigger] clients[i].addr == addr
}

/// The index of the client with address `addr` (meaningful when it is
/// registered; unique under the invariant).
pub open spec fn client_index(clients: Seq<Client>, addr: PeerAddr) -> int {
    choose|i: int| 0 <= i < clients.len() && #[trigger] clients[i].addr == addr
}

/// Under the invariant, the client at index `i` is the one that
/// `client_index` picks for its address.
pub proof fn lemma_client_index_unique(clients: Seq<Client>, next_user_id: u32, i: int)
    requires
        clients_wf(clients, next_user_id),
        0 <= i < clients.len(),
    ensures
        registered(clients, clients[i].addr),
        client_index(clients, clients[i].addr) == i,
{
    let a = clients[i].addr;
    assert(registered(clients, a));
    let k = client_index(clients, a);
    assert(0 <= k < clients.len() && clients[k].addr == a);
}

impl Server {
    /// The invariant of the server's state.
    pub open spec fn wf(&self) -> bool {
        view_wf(self@)
    }

    /// An empty server: no clients, no entities, both counters at 1.
    pub fn new() -> (r: Server)
        ensures
            r.wf(),
            r@.clients.len() == 0,
            r@.entities.len() == 0,
            r@.next_user_id == 1,
            r@.next_entity_id == 1,
    {
        let r = Server { clients: Vec::new(), entities: HashMap::new(), next_user_id: 1, next_entity_id: 1 };
        assert(r@.entities.dom() =~= Set::empty());
        r
    }

    /// The index of the client with address `addr`, if any.
    pub fn find_client(&self, addr: PeerAddr) -> (r: Option<usize>)
        ensures
            r is None <==> !registered(self@.clients, addr),
            r matches Some(i) ==> i < self@.clients.len() && self@.clients[i as int].addr == addr,
            clients_wf(self@.clients, self@.next_user_id) ==> (r matches Some(i) ==> i
                == client_index(self@.clients, addr)),
    {
        let n = self.clients.len();
        let mut i: usize = 0;
        while i < n
            invariant
                n == self.clients.len(),
                i <= n,
                forall|j: int| 0 <= j < i ==> self.clients@[j].addr != addr,
            decreases n - i,
        {
            if self.clients[i].addr == addr {
                proof {
                    if clients_wf(self@.clients, self@.next_user_id) {
                        lemma_client_index_unique(self@.clients, self@.next_user_id, i as int);
                    }
                }
                return Some(i);
            }
            i = i + 1;
        }
        None
    }
}

} // verus!
