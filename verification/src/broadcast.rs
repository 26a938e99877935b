//! The broadcast loop: the single consumer of the shared inbound
//! queue, and the sole point of truth for what goes to everyone.

use vstd::prelude::*;
use crate::message::Message;
use crate::message::MessageModel;
use crate::message::RelayConfig;
use crate::registry::ClientModel;
use crate::registry::Registry;
use crate::registry::fan_out;

verus! {

/// The views of a batch of messages, in dequeue order.
pub open spec fn message_views(s: Seq<Message>) -> Seq<MessageModel> {
    s.map_values(|m: Message| m@)
}

/// The registry after the broadcast loop has fanned out every message
/// of `ms`, in order: the fold of [`fan_out`] over the batch.
pub open spec fn fan_out_all(
    cs: Seq<ClientModel>,
    ms: Seq<MessageModel>,
    cfg: RelayConfig,
) -> Seq<ClientModel>
    decreases ms.len(),
{
    if ms.len() == 0 {
        cs
    } else {
        fan_out_all(fan_out(cs, ms[0], cfg), ms.drop_first(), cfg)
    }
}

/// Fanning out a batch and then one more message is the same as
/// fanning out the batch extended by that message.
pub proof fn lemma_fan_out_all_snoc(
    cs: Seq<ClientModel>,
    ms: Seq<MessageModel>,
    m: MessageModel,
    cfg: RelayConfig,
)
    ensures
        fan_out_all(cs, ms.push(m), cfg) == fan_out(fan_out_all(cs, ms, cfg), m, cfg),
    decreases ms.len(),
{
    if ms.len() == 0 {
        assert(ms.push(m)[0] == m);
        assert(ms.push(m).drop_first() =~= Seq::<MessageModel>::empty());
        assert(fan_out_all(cs, ms, cfg) == cs);
        assert(fan_out_all(cs, ms.push(m), cfg) == fan_out_all(
            fan_out(cs, m, cfg),
            Seq::<MessageModel>::empty(),
            cfg,
        ));
        assert(fan_out_all(fan_out(cs, m, cfg), Seq::<MessageModel>::empty(), cfg) == fan_out(
            cs,
            m,
            cfg,
        ));
    } else {
        assert(ms.push(m)[0] == ms[0]);
        assert(ms.push(m).drop_first() =~= ms.drop_first().push(m));
        assert(fan_out_all(cs, ms.push(m), cfg) == fan_out_all(
            fan_out(cs, ms[0], cfg),
            ms.drop_first().push(m),
            cfg,
        ));
        lemma_fan_out_all_snoc(fan_out(cs, ms[0], cfg), ms.drop_first(), m, cfg);
        assert(fan_out_all(cs, ms, cfg) == fan_out_all(
            fan_out(cs, ms[0], cfg),
            ms.drop_first(),
            cfg,
        ));
    }
}

/// One round of the broadcast loop: fans every message of a drained
/// inbound batch out to the registered clients, oldest message first.
///
/// Fan-out of one message never blocks on, or is prevented by, any
/// single outbox: each message is queued into exactly the outboxes
/// that accept it, in dequeue order, as [`fan_out_all`] states.
pub fn receive_messages(registry: &mut Registry, inbound: Vec<Message>, cfg: &RelayConfig)
    ensures
        final(registry)@.clients == fan_out_all(
            old(registry)@.clients,
            message_views(inbound@),
            *cfg,
        ),
        final(registry)@.next_id == old(registry)@.next_id,
{
    let ghost cs0 = registry@.clients;
    let n = inbound.len();
    let mut i: usize = 0;
    while i < n
        invariant
            n == inbound.len(),
            i <= n,
            cs0 == old(registry)@.clients,
            registry@.next_id == old(registry)@.next_id,
            registry@.clients == fan_out_all(
                cs0,
                message_views(inbound@).subrange(0, i as int),
                *cfg,
            ),
        decreases n - i,
    {
        let ghost pre = message_views(inbound@).subrange(0, i as int);
        registry.broadcast(&inbound[i], cfg);
        proof {
            assert(message_views(inbound@).subrange(0, i as int + 1) =~= pre.push(
                inbound@[i as int]@,
            ));
            lemma_fan_out_all_snoc(cs0, pre, inbound@[i as int]@, *cfg);
        }
        i += 1;
    }
    proof {
        assert(message_views(inbound@).subrange(0, n as int) =~= message_views(inbound@));
    }
}

} // verus!
