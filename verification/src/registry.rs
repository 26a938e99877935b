//! The registry of active clients and the broadcast fan-out.
//!
//! The registry owns one [`ClientHandle`] per connected client and is
//! the sole point of truth for who receives a broadcast. Registration
//! mints a process-unique, never-reused identifier; removal is
//! idempotent; fan-out delivers one copy of a message into every
//! member's outbox, skipping (never waiting on) a member whose outbox
//! is closed or full.

use vstd::prelude::*;
use crate::message::Message;
use crate::message::MessageModel;
use crate::message::RelayConfig;
use crate::outbox::Outbox;
use crate::outbox::OutboxModel;

verus! {

/// Mathematical view of a [`ClientHandle`].
pub ghost struct ClientModel {
    pub id: u64,
    pub outbox: OutboxModel,
}

/// Mathematical view of a [`Registry`]: the registered clients, in
/// registration order, and the next identifier to be minted.
pub ghost struct RegistryModel {
    pub clients: Seq<ClientModel>,
    pub next_id: u64,
}

/// The views of a sequence of handles, in the same order.
pub open spec fn handle_views(s: Seq<ClientHandle>) -> Seq<ClientModel> {
    s.map_values(|h: ClientHandle| h@)
}

/// Whether a fan-out of message `m` puts a copy into `c`'s outbox:
/// the outbox must accept it, and when echo to the sender is switched
/// off, `c` must not be the sender.
pub open spec fn should_deliver(c: ClientModel, m: MessageModel, cfg: RelayConfig) -> bool {
    c.outbox.accepts() && (cfg.echo_to_self || m.origin != Some(c.id))
}

/// One client after a fan-out of `m`: one copy queued at the back of
/// its outbox when [`should_deliver`] holds, untouched otherwise.
pub open spec fn deliver_client(c: ClientModel, m: MessageModel, cfg: RelayConfig) -> ClientModel {
    if should_deliver(c, m, cfg) {
        ClientModel { id: c.id, outbox: c.outbox.deliver(m) }
    } else {
        c
    }
}

/// The whole registry after a fan-out of `m`: every client is treated
/// independently by [`deliver_client`].
pub open spec fn fan_out(cs: Seq<ClientModel>, m: MessageModel, cfg: RelayConfig) -> Seq<ClientModel> {
    cs.map_values(|c: ClientModel| deliver_client(c, m, cfg))
}

/// How many clients a fan-out of `m` actually reaches.
pub open spec fn count_deliverable(cs: Seq<ClientModel>, m: MessageModel, cfg: RelayConfig) -> nat
    decreases cs.len(),
{
    if cs.len() == 0 {
        0
    } else {
        count_deliverable(cs.drop_last(), m, cfg) + (if should_deliver(cs.last(), m, cfg) {
            1nat
        } else {
            0nat
        })
    }
}

/// Whether some registered client has identifier `id`.
pub open spec fn has_client(cs: Seq<ClientModel>, id: u64) -> bool {
    exists|i: int| 0 <= i < cs.len() && #[trigger] cs[i].id == id
}

/// The position of the first client with identifier `id`.
pub open spec fn first_index_with_id(cs: Seq<ClientModel>, id: u64) -> int
    decreases cs.len(),
{
    if cs.len() == 0 {
        0
    } else if cs[0].id == id {
        0
    } else {
        1 + first_index_with_id(cs.drop_first(), id)
    }
}

/// The registry after an unregistration of `id`: the first handle
/// carrying `id` is removed; when none does, nothing changes.
pub open spec fn remove_client(cs: Seq<ClientModel>, id: u64) -> Seq<ClientModel> {
    if has_client(cs, id) {
        cs.remove(first_index_with_id(cs, id))
    } else {
        cs
    }
}

/// One client after the outbox of `id` is closed.
pub open spec fn close_client(c: ClientModel, id: u64) -> ClientModel {
    if c.id == id {
        ClientModel {
            id: c.id,
            outbox: OutboxModel { queued: c.outbox.queued, capacity: c.outbox.capacity, closed: true },
        }
    } else {
        c
    }
}

/// The registry after the outbox of `id` is closed.
pub open spec fn close_for(cs: Seq<ClientModel>, id: u64) -> Seq<ClientModel> {
    cs.map_values(|c: ClientModel| close_client(c, id))
}

/// The identifiers of the registered clients, in registration order.
pub open spec fn ids_of(cs: Seq<ClientModel>) -> Seq<u64> {
    cs.map_values(|c: ClientModel| c.id)
}

/// The message a writer task's poll for `id` takes: the oldest message
/// queued in `id`'s outbox, if the client is registered and has one.
pub open spec fn taken_message(cs: Seq<ClientModel>, id: u64) -> Option<MessageModel> {
    if has_client(cs, id) && cs[first_index_with_id(cs, id)].outbox.queued.len() > 0 {
        Some(cs[first_index_with_id(cs, id)].outbox.queued[0])
    } else {
        None
    }
}

/// The registry after a writer task's poll for `id`: the taken message
/// leaves the front of that outbox; nothing else changes.
pub open spec fn after_take(cs: Seq<ClientModel>, id: u64) -> Seq<ClientModel> {
    if has_client(cs, id) && cs[first_index_with_id(cs, id)].outbox.queued.len() > 0 {
        let j = first_index_with_id(cs, id);
        cs.update(j, ClientModel {
            id: cs[j].id,
            outbox: OutboxModel {
                queued: cs[j].outbox.queued.drop_first(),
                capacity: cs[j].outbox.capacity,
                closed: cs[j].outbox.closed,
            },
        })
    } else {
        cs
    }
}

/// Identifiers appear in strictly ascending registration order.
pub open spec fn ids_strictly_ascending(cs: Seq<ClientModel>) -> bool {
    forall|i: int, j: int| #![trigger cs[i], cs[j]] 0 <= i < j < cs.len() ==> cs[i].id < cs[j].id
}

/// No two registered clients share an identifier.
pub open spec fn unique_ids(cs: Seq<ClientModel>) -> bool {
    forall|i: int, j: int|
        #![trigger cs[i], cs[j]]
        0 <= i < cs.len() && 0 <= j < cs.len() && i != j ==> cs[i].id != cs[j].id
}

/// Well-formedness of a registry: identifiers ascend strictly (so they
/// are unique and never reused), all lie below the next one to be
/// minted, and every outbox respects its capacity.
pub open spec fn registry_wf(m: RegistryModel) -> bool {
    &&& ids_strictly_ascending(m.clients)
    &&& forall|i: int| #![trigger m.clients[i]] 0 <= i < m.clients.len() ==> m.clients[i].id < m.next_id
    &&& forall|i: int| #![trigger m.clients[i]] 0 <= i < m.clients.len() ==> m.clients[i].outbox.wf()
}

/// Strictly ascending identifiers are in particular pairwise distinct.
pub proof fn lemma_ascending_implies_unique(cs: Seq<ClientModel>)
    requires
        ids_strictly_ascending(cs),
    ensures
        unique_ids(cs),
{
    assert forall|i: int, j: int|
        #![trigger cs[i], cs[j]]
        0 <= i < cs.len() && 0 <= j < cs.len() && i != j implies cs[i].id != cs[j].id by {
        if i < j {
            assert(cs[i].id < cs[j].id);
        } else {
            assert(cs[j].id < cs[i].id);
        }
    }
}

/// [`first_index_with_id`] finds the first occurrence: it is in range,
/// it carries `id`, and nothing before it does.
pub proof fn lemma_first_index_with_id(cs: Seq<ClientModel>, id: u64)
    requires
        has_client(cs, id),
    ensures
        0 <= first_index_with_id(cs, id) < cs.len(),
        cs[first_index_with_id(cs, id)].id == id,
        forall|k: int| #![trigger cs[k]] 0 <= k < first_index_with_id(cs, id) ==> cs[k].id != id,
    decreases cs.len(),
{
    if cs[0].id == id {
    } else {
        let w = choose|i: int| 0 <= i < cs.len() && #[trigger] cs[i].id == id;
        assert(cs.drop_first()[w - 1].id == id);
        lemma_first_index_with_id(cs.drop_first(), id);
        let j = first_index_with_id(cs.drop_first(), id);
        assert(cs[j + 1] == cs.drop_first()[j]);
        assert forall|k: int| #![trigger cs[k]] 0 <= k < j + 1 implies cs[k].id != id by {
            if k > 0 {
                assert(cs.drop_first()[k - 1] == cs[k]);
            }
        }
    }
}

/// The engine-side record of one connected client: its identity and
/// the outbox its writer task drains.
pub struct ClientHandle {
    id: u64,
    outbox: Outbox,
}

/// A mutable borrow of the handle at position `i`.
fn handle_at_mut(clients: &mut Vec<ClientHandle>, i: usize) -> (h: &mut ClientHandle)
    requires
        i < old(clients).len(),
    ensures
        *h == old(clients)@[i as int],
        final(clients)@ == old(clients)@.update(i as int, *final(h)),
{
    &mut clients[i]
}

impl View for ClientHandle {
    type V = ClientModel;

    closed spec fn view(&self) -> ClientModel {
        ClientModel { id: self.id, outbox: self.outbox@ }
    }
}

/// The thread-safe-by-discipline collection of all active clients.
///
/// The registry is meant to be owned by one lock or one owner thread;
/// its operations are plain sequential mutations whose contracts the
/// broadcast loop and the per-connection tasks rely on.
pub struct Registry {
    clients: Vec<ClientHandle>,
    next_id: u64,
}

impl View for Registry {
    type V = RegistryModel;

    closed spec fn view(&self) -> RegistryModel {
        RegistryModel { clients: handle_views(self.clients@), next_id: self.next_id }
    }
}

impl Registry {
    #[verifier::type_invariant]
    spec fn inv(self) -> bool {
        registry_wf(self@)
    }

    /// An empty registry; the first registration will mint id 0.
    pub fn new() -> (r: Registry)
        ensures
            r@.clients == Seq::<ClientModel>::empty(),
            r@.next_id == 0,
    {
        let r = Registry { clients: Vec::new(), next_id: 0 };
        proof {
            assert(r@.clients =~= Seq::<ClientModel>::empty());
        }
        r
    }

    /// Every registry in reach of callers is well-formed — in
    /// particular, no two members share an identifier; calling this
    /// makes those facts available at the call site.
    pub fn well_formed(&self)
        ensures
            registry_wf(self@),
            unique_ids(self@.clients),
    {
        proof {
            use_type_invariant(&*self);
            lemma_ascending_implies_unique(self@.clients);
        }
    }

    /// Whether a fresh identifier can still be minted. In practice
    /// this never turns false: identifiers are 64-bit and never
    /// reused.
    pub fn ids_available(&self) -> (r: bool)
        ensures
            r == (self@.next_id < u64::MAX),
    {
        self.next_id < u64::MAX
    }

    /// How many clients are registered.
    pub fn client_count(&self) -> (r: usize)
        ensures
            r == self@.clients.len(),
    {
        self.clients.len()
    }

    /// Inserts a fresh handle with an empty, open outbox bounded by
    /// `capacity`, and returns its identifier, the token for later
    /// removal. The identifier is fresh: no current member carries it.
    pub fn register(&mut self, capacity: usize) -> (id: u64)
        requires
            old(self)@.next_id < u64::MAX,
        ensures
            id == old(self)@.next_id,
            final(self)@.next_id == old(self)@.next_id + 1,
            final(self)@.clients == old(self)@.clients.push(ClientModel {
                id,
                outbox: OutboxModel {
                    queued: Seq::<MessageModel>::empty(),
                    capacity: capacity as nat,
                    closed: false,
                },
            }),
            !has_client(old(self)@.clients, id),
    {
        proof {
            use_type_invariant(&*self);
        }
        let ghost cs0 = self@.clients;
        let id = self.next_id;
        let handle = ClientHandle { id, outbox: Outbox::new(capacity) };
        let mut clients: Vec<ClientHandle> = Vec::new();
        std::mem::swap(&mut clients, &mut self.clients);
        clients.push(handle);
        self.next_id = id + 1;
        proof {
            assert(handle_views(clients@) =~= cs0.push(handle@));
        }
        std::mem::swap(&mut clients, &mut self.clients);
        id
    }

    /// Removes the handle registered under `id`, if it is present;
    /// a second call for the same `id` finds nothing and is a no-op.
    /// Never touches any other member.
    pub fn unregister(&mut self, id: u64)
        ensures
            final(self)@.clients == remove_client(old(self)@.clients, id),
            final(self)@.next_id == old(self)@.next_id,
    {
        proof {
            use_type_invariant(&*self);
        }
        let ghost cs0 = self@.clients;
        let mut clients: Vec<ClientHandle> = Vec::new();
        std::mem::swap(&mut clients, &mut self.clients);
        let n = clients.len();
        let mut i: usize = 0;
        while i < n
            invariant
                n == clients.len(),
                i <= n,
                handle_views(clients@) == cs0,
                cs0 == old(self)@.clients,
                registry_wf(RegistryModel { clients: cs0, next_id: self@.next_id }),
                self@.clients.len() == 0,
                self@.next_id == old(self)@.next_id,
                forall|k: int| #![trigger cs0[k]] 0 <= k < i ==> cs0[k].id != id,
            decreases n - i,
        {
            if clients[i].id == id {
                proof {
                    assert(cs0[i as int].id == id);
                    lemma_first_index_with_id(cs0, id);
                    assert(first_index_with_id(cs0, id) == i as int);
                }
                clients.remove(i);
                proof {
                    assert(handle_views(clients@) =~= remove_client(cs0, id));
                    let cs1 = remove_client(cs0, id);
                    assert forall|p: int, q: int|
                        #![trigger cs1[p], cs1[q]]
                        0 <= p < q < cs1.len() implies cs1[p].id < cs1[q].id by {
                        assert(cs1[p] == if p < i as int { cs0[p] } else { cs0[p + 1] });
                        assert(cs1[q] == if q < i as int { cs0[q] } else { cs0[q + 1] });
                    }
                    assert forall|p: int| #![trigger cs1[p]] 0 <= p < cs1.len()
                        implies cs1[p].id < self@.next_id && cs1[p].outbox.wf() by {
                        assert(cs1[p] == if p < i as int { cs0[p] } else { cs0[p + 1] });
                    }
                }
                std::mem::swap(&mut clients, &mut self.clients);
                return ;
            }
            i += 1;
        }
        proof {
            assert(!has_client(cs0, id));
        }
        std::mem::swap(&mut clients, &mut self.clients);
    }

    /// A consistent point-in-time view of the member list: the
    /// identifiers of all registered clients, in registration order.
    pub fn snapshot(&self) -> (r: Vec<u64>)
        ensures
            r@ == ids_of(self@.clients),
    {
        let ghost cs = self@.clients;
        let mut r: Vec<u64> = Vec::new();
        let n = self.clients.len();
        let mut i: usize = 0;
        while i < n
            invariant
                n == self.clients.len(),
                cs == self@.clients,
                i <= n,
                r@.len() == i,
                forall|k: int| 0 <= k < i ==> #[trigger] r@[k] == cs[k].id,
            decreases n - i,
        {
            r.push(self.clients[i].id);
            i += 1;
        }
        proof {
            assert(r@ =~= ids_of(cs));
        }
        r
    }

    /// Whether `id` is currently registered.
    pub fn is_registered(&self, id: u64) -> (r: bool)
        ensures
            r == has_client(self@.clients, id),
    {
        let ghost cs = self@.clients;
        let n = self.clients.len();
        let mut i: usize = 0;
        while i < n
            invariant
                n == self.clients.len(),
                cs == self@.clients,
                i <= n,
                forall|k: int| #![trigger cs[k]] 0 <= k < i ==> cs[k].id != id,
            decreases n - i,
        {
            if self.clients[i].id == id {
                proof {
                    assert(cs[i as int].id == id);
                }
                return true;
            }
            i += 1;
        }
        false
    }

    /// Fans one dequeued message out to every registered client:
    /// exactly one copy is queued into each outbox that accepts it and
    /// that echo policy allows; closed or full outboxes are skipped,
    /// never waited on. Returns how many clients were reached.
    pub fn broadcast(&mut self, msg: &Message, cfg: &RelayConfig) -> (delivered: usize)
        ensures
            final(self)@.clients == fan_out(old(self)@.clients, msg@, *cfg),
            final(self)@.next_id == old(self)@.next_id,
            delivered as nat == count_deliverable(old(self)@.clients, msg@, *cfg),
    {
        proof {
            use_type_invariant(&*self);
        }
        let ghost cs0 = self@.clients;
        let mut clients: Vec<ClientHandle> = Vec::new();
        std::mem::swap(&mut clients, &mut self.clients);
        let n = clients.len();
        let mut i: usize = 0;
        let mut delivered: usize = 0;
        while i < n
            invariant
                n == clients.len(),
                cs0.len() == n,
                i <= n,
                self@.clients.len() == 0,
                self@.next_id == old(self)@.next_id,
                cs0 == old(self)@.clients,
                registry_wf(RegistryModel { clients: cs0, next_id: self@.next_id }),
                forall|k: int| #![trigger clients@[k]]
                    0 <= k < i ==> clients@[k]@ == deliver_client(cs0[k], msg@, *cfg),
                forall|k: int| #![trigger clients@[k]]
                    i <= k < n ==> clients@[k]@ == cs0[k],
                delivered <= i,
                delivered as nat == count_deliverable(cs0.subrange(0, i as int), msg@, *cfg),
            decreases n - i,
        {
            let allowed = match msg.origin {
                Some(origin) => cfg.echo_to_self || origin != clients[i].id,
                None => true,
            };
            proof {
                assert(clients@[i as int]@ == cs0[i as int]);
            }
            let did: bool;
            if allowed {
                let h = handle_at_mut(&mut clients, i);
                did = h.outbox.deliver(msg);
            } else {
                did = false;
            }
            if did {
                delivered += 1;
            }
            proof {
                assert(clients@[i as int]@ == deliver_client(cs0[i as int], msg@, *cfg));
                let s1 = cs0.subrange(0, i as int + 1);
                assert(s1.drop_last() =~= cs0.subrange(0, i as int));
                assert(s1.last() == cs0[i as int]);
                assert(did == should_deliver(cs0[i as int], msg@, *cfg));
            }
            i += 1;
        }
        proof {
            assert(cs0.subrange(0, n as int) =~= cs0);
            assert forall|k: int| 0 <= k < n implies #[trigger] handle_views(clients@)[k] == fan_out(
                cs0,
                msg@,
                *cfg,
            )[k] by {
                assert(clients@[k]@ == deliver_client(cs0[k], msg@, *cfg));
            }
            assert(handle_views(clients@) =~= fan_out(cs0, msg@, *cfg));
            let cs1 = fan_out(cs0, msg@, *cfg);
            assert forall|p: int, q: int|
                #![trigger cs1[p], cs1[q]]
                0 <= p < q < cs1.len() implies cs1[p].id < cs1[q].id by {
                assert(cs1[p] == deliver_client(cs0[p], msg@, *cfg));
                assert(cs1[q] == deliver_client(cs0[q], msg@, *cfg));
            }
            assert forall|p: int| #![trigger cs1[p]] 0 <= p < cs1.len()
                implies cs1[p].id < self@.next_id && cs1[p].outbox.wf() by {
                assert(cs1[p] == deliver_client(cs0[p], msg@, *cfg));
            }
        }
        std::mem::swap(&mut clients, &mut self.clients);
        delivered
    }

    /// A writer task's poll: takes the oldest message queued for `id`,
    /// if the client is registered and any is queued.
    pub fn take_next_for(&mut self, id: u64) -> (r: Option<Message>)
        ensures
            final(self)@.clients == after_take(old(self)@.clients, id),
            final(self)@.next_id == old(self)@.next_id,
            (r matches Some(m) ==> taken_message(old(self)@.clients, id) == Some(m@)),
            (r is None <==> taken_message(old(self)@.clients, id) is None),
    {
        proof {
            use_type_invariant(&*self);
        }
        let ghost cs0 = self@.clients;
        let mut clients: Vec<ClientHandle> = Vec::new();
        std::mem::swap(&mut clients, &mut self.clients);
        let n = clients.len();
        let mut i: usize = 0;
        let mut r: Option<Message> = None;
        while i < n
            invariant
                n == clients.len(),
                i <= n,
                handle_views(clients@) == cs0,
                cs0 == old(self)@.clients,
                registry_wf(RegistryModel { clients: cs0, next_id: self@.next_id }),
                self@.clients.len() == 0,
                self@.next_id == old(self)@.next_id,
                r is None,
                forall|k: int| #![trigger cs0[k]] 0 <= k < i ==> cs0[k].id != id,
            decreases n - i,
        {
            if clients[i].id == id {
                proof {
                    assert(cs0[i as int].id == id);
                    lemma_first_index_with_id(cs0, id);
                    assert(first_index_with_id(cs0, id) == i as int);
                    assert(handle_views(clients@)[i as int] == cs0[i as int]);
                }
                let h = handle_at_mut(&mut clients, i);
                r = h.outbox.take_next();
                proof {
                    assert(handle_views(clients@) =~= after_take(cs0, id));
                    let cs1 = after_take(cs0, id);
                    assert forall|p: int, q: int|
                        #![trigger cs1[p], cs1[q]]
                        0 <= p < q < cs1.len() implies cs1[p].id < cs1[q].id by {
                        assert(cs1[p].id == cs0[p].id);
                        assert(cs1[q].id == cs0[q].id);
                    }
                    assert forall|p: int| #![trigger cs1[p]] 0 <= p < cs1.len()
                        implies cs1[p].id < self@.next_id && cs1[p].outbox.wf() by {
                        assert(cs1[p].id == cs0[p].id);
                        if p == i as int {
                            assert(cs0[p].outbox.wf());
                        }
                    }
                }
                std::mem::swap(&mut clients, &mut self.clients);
                return r;
            }
            i += 1;
        }
        proof {
            assert(!has_client(cs0, id));
        }
        std::mem::swap(&mut clients, &mut self.clients);
        r
    }

    /// Closes the outbox registered under `id`, the teardown signal
    /// for that client's writer task. No other member is touched; a
    /// later broadcast drops messages to the closed outbox.
    pub fn close_outbox_for(&mut self, id: u64)
        ensures
            final(self)@.clients == close_for(old(self)@.clients, id),
            final(self)@.next_id == old(self)@.next_id,
    {
        proof {
            use_type_invariant(&*self);
        }
        let ghost cs0 = self@.clients;
        let mut clients: Vec<ClientHandle> = Vec::new();
        std::mem::swap(&mut clients, &mut self.clients);
        let n = clients.len();
        let mut i: usize = 0;
        while i < n
            invariant
                n == clients.len(),
                cs0.len() == n,
                i <= n,
                self@.clients.len() == 0,
                self@.next_id == old(self)@.next_id,
                cs0 == old(self)@.clients,
                registry_wf(RegistryModel { clients: cs0, next_id: self@.next_id }),
                forall|k: int| #![trigger clients@[k]]
                    0 <= k < i ==> clients@[k]@ == close_client(cs0[k], id),
                forall|k: int| #![trigger clients@[k]]
                    i <= k < n ==> clients@[k]@ == cs0[k],
            decreases n - i,
        {
            proof {
                assert(clients@[i as int]@ == cs0[i as int]);
            }
            if clients[i].id == id {
                let h = handle_at_mut(&mut clients, i);
                h.outbox.close();
            }
            proof {
                assert(clients@[i as int]@ == close_client(cs0[i as int], id));
            }
            i += 1;
        }
        proof {
            assert forall|k: int| 0 <= k < n implies #[trigger] handle_views(clients@)[k]
                == close_for(cs0, id)[k] by {
                assert(clients@[k]@ == close_client(cs0[k], id));
            }
            assert(handle_views(clients@) =~= close_for(cs0, id));
            let cs1 = close_for(cs0, id);
            assert forall|p: int, q: int|
                #![trigger cs1[p], cs1[q]]
                0 <= p < q < cs1.len() implies cs1[p].id < cs1[q].id by {
                assert(cs1[p] == close_client(cs0[p], id));
                assert(cs1[q] == close_client(cs0[q], id));
            }
            assert forall|p: int| #![trigger cs1[p]] 0 <= p < cs1.len()
                implies cs1[p].id < self@.next_id && cs1[p].outbox.wf() by {
                assert(cs1[p] == close_client(cs0[p], id));
            }
        }
        std::mem::swap(&mut clients, &mut self.clients);
    }
}

} // verus!
