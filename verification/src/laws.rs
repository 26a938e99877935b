//! The engine's guarantees, stated and proved once over the models.
//!
//! Each law is a public proof function: its `ensures` is the
//! guarantee, over the same spec functions the executable contracts
//! use, so it applies to every run of the engine.

use vstd::prelude::*;
use crate::message::MessageModel;
use crate::message::RelayConfig;
use crate::broadcast::fan_out_all;
use crate::outbox::OutboxModel;
use crate::registry::ClientModel;
use crate::registry::count_deliverable;
use crate::registry::deliver_client;
use crate::registry::fan_out;
use crate::registry::first_index_with_id;
use crate::registry::has_client;
use crate::registry::ids_of;
use crate::registry::lemma_first_index_with_id;
use crate::registry::remove_client;
use crate::registry::should_deliver;
use crate::registry::unique_ids;

verus! {

/// Fan-out completeness. When the broadcast loop fans a message out,
/// every client registered at that moment receives exactly one copy,
/// appended at the back of its outbox — or zero copies, exactly when
/// its outbox is closed or full (or it is the sender and echo is
/// switched off); then it is left untouched. No client is skipped and
/// none is reached twice.
pub proof fn lemma_fan_out_completeness(
    cs: Seq<ClientModel>,
    m: MessageModel,
    cfg: RelayConfig,
    i: int,
)
    requires
        0 <= i < cs.len(),
    ensures
        fan_out(cs, m, cfg).len() == cs.len(),
        should_deliver(cs[i], m, cfg) ==> fan_out(cs, m, cfg)[i] == (ClientModel {
            id: cs[i].id,
            outbox: OutboxModel {
                queued: cs[i].outbox.queued.push(m),
                capacity: cs[i].outbox.capacity,
                closed: cs[i].outbox.closed,
            },
        }),
        !should_deliver(cs[i], m, cfg) ==> fan_out(cs, m, cfg)[i] == cs[i],
{
}

/// No self-starvation. Delivery to a client depends on that client's
/// own outbox alone: in two registries whose member at position `j`
/// is the same, fan-out leaves that member the same, however slow,
/// full or closed every other member's outbox may be.
pub proof fn lemma_no_starvation(
    cs1: Seq<ClientModel>,
    cs2: Seq<ClientModel>,
    m: MessageModel,
    cfg: RelayConfig,
    j: int,
)
    requires
        0 <= j < cs1.len(),
        0 <= j < cs2.len(),
        cs1[j] == cs2[j],
    ensures
        fan_out(cs1, m, cfg)[j] == fan_out(cs2, m, cfg)[j],
{
}

/// One client run forward through a batch of fan-outs, oldest message
/// first.
pub open spec fn client_after(c: ClientModel, ms: Seq<MessageModel>, cfg: RelayConfig) -> ClientModel
    decreases ms.len(),
{
    if ms.len() == 0 {
        c
    } else {
        client_after(deliver_client(c, ms[0], cfg), ms.drop_first(), cfg)
    }
}

/// Fanning out a whole batch treats every client independently:
/// position `i` after the batch is that client alone run through the
/// batch.
pub proof fn lemma_fan_out_all_pointwise(
    cs: Seq<ClientModel>,
    ms: Seq<MessageModel>,
    cfg: RelayConfig,
    i: int,
)
    requires
        0 <= i < cs.len(),
    ensures
        fan_out_all(cs, ms, cfg).len() == cs.len(),
        fan_out_all(cs, ms, cfg)[i] == client_after(cs[i], ms, cfg),
    decreases ms.len(),
{
    if ms.len() == 0 {
    } else {
        assert(fan_out(cs, ms[0], cfg)[i] == deliver_client(cs[i], ms[0], cfg));
        lemma_fan_out_all_pointwise(fan_out(cs, ms[0], cfg), ms.drop_first(), cfg, i);
    }
}

/// Running a client through one batch and then another is running it
/// through the two batches joined.
pub proof fn lemma_client_after_append(
    c: ClientModel,
    ms1: Seq<MessageModel>,
    ms2: Seq<MessageModel>,
    cfg: RelayConfig,
)
    ensures
        client_after(c, ms1 + ms2, cfg) == client_after(client_after(c, ms1, cfg), ms2, cfg),
    decreases ms1.len(),
{
    if ms1.len() == 0 {
        assert(ms1 + ms2 =~= ms2);
    } else {
        assert((ms1 + ms2)[0] == ms1[0]);
        assert((ms1 + ms2).drop_first() =~= ms1.drop_first() + ms2);
        lemma_client_after_append(deliver_client(c, ms1[0], cfg), ms1.drop_first(), ms2, cfg);
    }
}

/// Fan-out only ever appends to an outbox: after any batch a client
/// keeps its identity, capacity and closedness, and its queue still
/// begins with everything it already held, in place.
pub proof fn lemma_client_after_extends(c: ClientModel, ms: Seq<MessageModel>, cfg: RelayConfig)
    ensures
        client_after(c, ms, cfg).id == c.id,
        client_after(c, ms, cfg).outbox.capacity == c.outbox.capacity,
        client_after(c, ms, cfg).outbox.closed == c.outbox.closed,
        client_after(c, ms, cfg).outbox.queued.len() >= c.outbox.queued.len(),
        forall|k: int|
            0 <= k < c.outbox.queued.len() ==> #[trigger] client_after(c, ms, cfg).outbox.queued[k]
                == c.outbox.queued[k],
    decreases ms.len(),
{
    if ms.len() == 0 {
    } else {
        lemma_client_after_extends(deliver_client(c, ms[0], cfg), ms.drop_first(), cfg);
    }
}

/// Ordering. For two messages `a` then `b` in the order the broadcast
/// loop dequeued them — with any other traffic before, between and
/// after — every recipient that receives both holds `a` at an earlier
/// place in its outbox than `b`: no recipient sees `b` before `a`.
/// "Receives" is [`should_deliver`] at the moment each message is
/// fanned out.
pub proof fn lemma_fan_out_ordering(
    cs: Seq<ClientModel>,
    cfg: RelayConfig,
    before: Seq<MessageModel>,
    a: MessageModel,
    mid: Seq<MessageModel>,
    b: MessageModel,
    after: Seq<MessageModel>,
    i: int,
)
    requires
        0 <= i < cs.len(),
    ensures
        ({
            let batch = before + seq![a] + mid + seq![b] + after;
            let c1 = client_after(cs[i], before, cfg);
            let c2 = client_after(deliver_client(c1, a, cfg), mid, cfg);
            let done = fan_out_all(cs, batch, cfg)[i];
            should_deliver(c1, a, cfg) && should_deliver(c2, b, cfg) ==> exists|p: int, q: int|
                0 <= p < q < done.outbox.queued.len() && done.outbox.queued[p] == a
                    && done.outbox.queued[q] == b
        }),
{
    let batch = before + seq![a] + mid + seq![b] + after;
    let c0 = cs[i];
    let c1 = client_after(c0, before, cfg);
    let ca = deliver_client(c1, a, cfg);
    let c2 = client_after(ca, mid, cfg);
    let cb = deliver_client(c2, b, cfg);
    let c3 = client_after(cb, after, cfg);
    lemma_fan_out_all_pointwise(cs, batch, cfg, i);
    lemma_client_after_append(c0, before, seq![a] + mid + seq![b] + after, cfg);
    assert(batch =~= before + (seq![a] + mid + seq![b] + after));
    lemma_client_after_append(c1, seq![a], mid + seq![b] + after, cfg);
    assert(seq![a] + mid + seq![b] + after =~= seq![a] + (mid + seq![b] + after));
    assert(client_after(c1, seq![a], cfg) == client_after(ca, seq![a].drop_first(), cfg));
    assert(seq![a].drop_first() =~= Seq::<MessageModel>::empty());
    assert(client_after(ca, Seq::<MessageModel>::empty(), cfg) == ca);
    lemma_client_after_append(ca, mid, seq![b] + after, cfg);
    assert(mid + seq![b] + after =~= mid + (seq![b] + after));
    lemma_client_after_append(c2, seq![b], after, cfg);
    assert(client_after(c2, seq![b], cfg) == client_after(cb, seq![b].drop_first(), cfg));
    assert(seq![b].drop_first() =~= Seq::<MessageModel>::empty());
    assert(client_after(cb, Seq::<MessageModel>::empty(), cfg) == cb);
    assert(fan_out_all(cs, batch, cfg)[i] == c3);
    if should_deliver(c1, a, cfg) && should_deliver(c2, b, cfg) {
        let p = c1.outbox.queued.len() as int;
        let q = c2.outbox.queued.len() as int;
        assert(ca.outbox.queued == c1.outbox.queued.push(a));
        assert(ca.outbox.queued[p] == a);
        lemma_client_after_extends(ca, mid, cfg);
        assert(c2.outbox.queued[p] == a);
        assert(q > p);
        assert(cb.outbox.queued == c2.outbox.queued.push(b));
        assert(cb.outbox.queued[q] == b);
        assert(cb.outbox.queued[p] == a);
        lemma_client_after_extends(cb, after, cfg);
        assert(c3.outbox.queued[p] == a && c3.outbox.queued[q] == b);
        assert(0 <= p < q < c3.outbox.queued.len());
    }
}

/// Idempotent teardown. Unregistering the same client twice — the
/// harmless race between a reader's and a writer's error paths — is
/// the same as unregistering it once, and neither call touches any
/// other client: every other identifier stays registered exactly as
/// it was.
pub proof fn lemma_unregister_idempotent(cs: Seq<ClientModel>, id: u64)
    requires
        unique_ids(cs),
    ensures
        !has_client(remove_client(cs, id), id),
        remove_client(remove_client(cs, id), id) == remove_client(cs, id),
        forall|x: u64|
            x != id ==> (#[trigger] has_client(remove_client(cs, id), x) <==> has_client(cs, x)),
{
    if has_client(cs, id) {
        lemma_first_index_with_id(cs, id);
        let j = first_index_with_id(cs, id);
        let cs1 = remove_client(cs, id);
        assert(cs1 == cs.remove(j));
        assert forall|k: int| 0 <= k < cs1.len() implies #[trigger] cs1[k].id != id by {
            if k < j {
                assert(cs1[k] == cs[k]);
            } else {
                assert(cs1[k] == cs[k + 1]);
            }
        }
        assert(!has_client(cs1, id));
        assert forall|x: u64| x != id implies (#[trigger] has_client(cs1, x) <==> has_client(
            cs,
            x,
        )) by {
            if has_client(cs1, x) {
                let w = choose|k: int| 0 <= k < cs1.len() && #[trigger] cs1[k].id == x;
                if w < j {
                    assert(cs[w].id == x);
                } else {
                    assert(cs[w + 1].id == x);
                }
            }
            if has_client(cs, x) {
                let w = choose|k: int| 0 <= k < cs.len() && #[trigger] cs[k].id == x;
                if w < j {
                    assert(cs1[w].id == x);
                } else {
                    assert(cs1[w - 1].id == x);
                }
            }
        }
    } else {
        assert(remove_client(cs, id) == cs);
    }
}

/// All registered clients unregistered, one at a time, in the order
/// of a member snapshot.
pub open spec fn unregister_each(cs: Seq<ClientModel>, ids: Seq<u64>) -> Seq<ClientModel>
    decreases ids.len(),
{
    if ids.len() == 0 {
        cs
    } else {
        unregister_each(remove_client(cs, ids[0]), ids.drop_first())
    }
}

/// Registration/deregistration symmetry. When every registered client
/// unregisters, the registry is empty again — connects leave nothing
/// behind once their disconnects have run.
pub proof fn lemma_teardown_symmetry(cs: Seq<ClientModel>)
    requires
        unique_ids(cs),
    ensures
        unregister_each(cs, ids_of(cs)) == Seq::<ClientModel>::empty(),
    decreases cs.len(),
{
    if cs.len() == 0 {
        assert(ids_of(cs).len() == 0);
    } else {
        let id0 = cs[0].id;
        assert(ids_of(cs)[0] == id0);
        assert(has_client(cs, id0));
        assert(first_index_with_id(cs, id0) == 0);
        assert(remove_client(cs, id0) == cs.remove(0));
        assert(cs.remove(0) =~= cs.drop_first());
        let rest = cs.drop_first();
        assert forall|p: int, q: int|
            #![trigger rest[p], rest[q]]
            0 <= p < rest.len() && 0 <= q < rest.len() && p != q implies rest[p].id != rest[q].id by {
            assert(rest[p] == cs[p + 1]);
            assert(rest[q] == cs[q + 1]);
        }
        lemma_teardown_symmetry(rest);
        assert(ids_of(cs).drop_first() =~= ids_of(rest));
        assert(unregister_each(cs, ids_of(cs)) == unregister_each(rest, ids_of(rest)));
    }
}

/// The other half of the symmetry: a message fanned out over an empty
/// registry reaches zero recipients and leaves the registry empty,
/// without error.
pub proof fn lemma_fan_out_empty(m: MessageModel, cfg: RelayConfig)
    ensures
        fan_out(Seq::<ClientModel>::empty(), m, cfg) == Seq::<ClientModel>::empty(),
        count_deliverable(Seq::<ClientModel>::empty(), m, cfg) == 0,
{
    assert(fan_out(Seq::<ClientModel>::empty(), m, cfg) =~= Seq::<ClientModel>::empty());
}

} // verus!
