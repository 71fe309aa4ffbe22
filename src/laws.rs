use std::any::TypeId;
use vstd::prelude::*;

use crate::buckets::{bucket_of, filed};
use crate::entity::Entity;
use crate::message::MessageBox;
use crate::store::{buckets_for, enqueued, enqueued_all, MessageMap};

verus! {

/// Messages enqueued for one entity with one payload type come out of that
/// entity's bucket for that type in exactly the order they were enqueued,
/// behind whatever was pending there before; from an empty bucket, exactly `bs`.
pub proof fn lemma_fifo(m: MessageMap, bs: Seq<MessageBox>, e: Entity, t: TypeId)
    requires
        forall|i: int| 0 <= i < bs.len() ==> (#[trigger] bs[i]).spec_target() == e && bs[i].tag() == t,
    ensures
        bucket_of(buckets_for(enqueued_all(m, bs), e), t) == bucket_of(buckets_for(m, e), t) + bs,
        bucket_of(buckets_for(m, e), t).len() == 0 ==> bucket_of(
            buckets_for(enqueued_all(m, bs), e),
            t,
        ) == bs,
    decreases bs.len(),
{
    if bs.len() == 0 {
        assert(bucket_of(buckets_for(m, e), t) + bs =~= bucket_of(buckets_for(m, e), t));
    } else {
        let rest = bs.drop_last();
        assert forall|i: int| 0 <= i < rest.len() implies (#[trigger] rest[i]).spec_target() == e
            && rest[i].tag() == t by {
            assert(rest[i] == bs[i]);
        }
        lemma_fifo(m, rest, e, t);
        let b = bs.last();
        let mid = enqueued_all(m, rest);
        assert(bs[bs.len() - 1] == b);
        assert(buckets_for(enqueued(mid, b), e) == filed(buckets_for(mid, e), b));
        assert(bucket_of(buckets_for(m, e), t) + bs =~= (bucket_of(buckets_for(m, e), t) + rest).push(
            b,
        ));
    }
}

/// Enqueueing messages addressed to other entities leaves the messages of `e`
/// exactly as they were: draining `e` never shows another entity's messages.
pub proof fn lemma_isolation(m: MessageMap, bs: Seq<MessageBox>, e: Entity)
    requires
        forall|i: int| 0 <= i < bs.len() ==> (#[trigger] bs[i]).spec_target() != e,
    ensures
        buckets_for(enqueued_all(m, bs), e) == buckets_for(m, e),
    decreases bs.len(),
{
    if bs.len() > 0 {
        let rest = bs.drop_last();
        assert forall|i: int| 0 <= i < rest.len() implies (#[trigger] rest[i]).spec_target() != e by {
            assert(rest[i] == bs[i]);
        }
        lemma_isolation(m, rest, e);
        assert(bs[bs.len() - 1] == bs.last());
    }
}

/// Once `e` has been drained (its entry removed), it is not listed again while
/// only other entities receive messages, and is listed again after a message for it.
pub proof fn lemma_drained_until_new(m: MessageMap, bs: Seq<MessageBox>, e: Entity, b: MessageBox)
    requires
        forall|i: int| 0 <= i < bs.len() ==> (#[trigger] bs[i]).spec_target() != e,
        b.spec_target() == e,
    ensures
        !enqueued_all(m.remove(e), bs).contains_key(e),
        enqueued(enqueued_all(m.remove(e), bs), b).contains_key(e),
    decreases bs.len(),
{
    if bs.len() > 0 {
        let rest = bs.drop_last();
        assert forall|i: int| 0 <= i < rest.len() implies (#[trigger] rest[i]).spec_target() != e by {
            assert(rest[i] == bs[i]);
        }
        lemma_drained_until_new(m, rest, e, b);
        assert(bs[bs.len() - 1] == bs.last());
    }
}

/// Reading one payload type twice from the same reader: the first read takes
/// the whole bucket, the second finds nothing.
pub proof fn lemma_read_once(buckets: Map<TypeId, Seq<MessageBox>>, t: TypeId)
    ensures
        bucket_of(buckets.remove(t), t) == Seq::<MessageBox>::empty(),
        !buckets.remove(t).contains_key(t),
{
}

/// Discarding `e` drops all of its messages: a later drain of `e` yields no buckets.
pub proof fn lemma_discard_then_drain(m: MessageMap, e: Entity)
    ensures
        buckets_for(m.remove(e), e) == Map::<TypeId, Seq<MessageBox>>::empty(),
        !m.remove(e).contains_key(e),
{
}

} // verus!
