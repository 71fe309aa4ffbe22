use std::any::{Any, TypeId};
use std::marker::PhantomData;
use vstd::prelude::*;

use crate::buckets::{bucket_of, tags_match, TypeBuckets};
use crate::entity::Entity;
use crate::message::{type_tag, MessageBox};

verus! {

/// Every message of `m` is addressed to `e`.
pub open spec fn all_addressed_to(m: Map<TypeId, Seq<MessageBox>>, e: Entity) -> bool {
    forall|t: TypeId, j: int|
        #![trigger m[t][j]]
        m.contains_key(t) && 0 <= j < m[t].len() ==> m[t][j].spec_target() == e
}

/// The messages drained for one entity, read one payload type at a time.
pub struct MessageReader {
    messages: TypeBuckets,
    target: Entity,
}

impl View for MessageReader {
    type V = Map<TypeId, Seq<MessageBox>>;

    closed spec fn view(&self) -> Map<TypeId, Seq<MessageBox>> {
        self.messages@
    }
}

impl MessageReader {
    /// The entity the reader's messages were sent to.
    pub closed spec fn spec_entity(&self) -> Entity {
        self.target
    }

    pub closed spec fn buckets_wf(&self) -> bool {
        self.messages.wf()
    }

    /// Well-formed: one bucket per type, each message under its own type and
    /// addressed to the reader's entity.
    pub open spec fn wf(&self) -> bool {
        &&& self.buckets_wf()
        &&& tags_match(self@)
        &&& all_addressed_to(self@, self.spec_entity())
    }

    /// Creates a reader over `messages`, all sent to `target`.
    pub fn new(messages: TypeBuckets, target: Entity) -> (r: Self)
        requires
            messages.wf(),
            all_addressed_to(messages@, target),
        ensures
            r.wf(),
            r@ == messages@,
            r.spec_entity() == target,
    {
        MessageReader { messages, target }
    }

    /// Returns the target entity of the reader.
    pub fn entity(&self) -> (r: Entity)
        ensures
            r == self.spec_entity(),
    {
        self.target
    }

    /// Returns `true` if the reader holds a bucket for the type tag `tag`.
    pub fn contains_tag(&self, tag: &TypeId) -> (r: bool)
        requires
            self.wf(),
        ensures
            r == self@.contains_key(*tag),
    {
        self.messages.contains(tag)
    }

    /// Returns `true` if the reader holds a bucket for the type `M`.
    pub fn contains_type<M: Any>(&self) -> bool
        requires
            self.wf(),
    {
        let tag = type_tag::<M>();
        self.contains_tag(&tag)
    }

    /// Returns `true` if the reader holds no buckets.
    pub fn is_empty(&self) -> (r: bool)
        requires
            self.wf(),
        ensures
            r == (self@ == Map::<TypeId, Seq<MessageBox>>::empty()),
    {
        self.messages.is_empty()
    }

    /// Removes the bucket for `tag` and returns its messages in arrival order
    /// (none when there is no such bucket).
    pub fn read_tag(&mut self, tag: &TypeId) -> (r: Vec<MessageBox>)
        requires
            old(self).wf(),
        ensures
            final(self).wf(),
            final(self).spec_entity() == old(self).spec_entity(),
            r@ == bucket_of(old(self)@, *tag),
            final(self)@ == old(self)@.remove(*tag),
    {
        let ghost before = self@;
        let r = self.messages.take(tag);
        assert forall|t: TypeId, j: int|
            #![trigger self@[t][j]]
            self@.contains_key(t) && 0 <= j < self@[t].len() implies self@[t][j].spec_target()
                == self.target by {
            assert(before.contains_key(t));
        }
        r
    }

    /// Removes the bucket for the type `M` and returns an iterator over its messages.
    /// A second call for the same type finds no bucket left.
    pub fn read<M: Any + Send>(&mut self) -> (r: MessageIterator<M>)
        requires
            old(self).wf(),
        ensures
            final(self).wf(),
            final(self).spec_entity() == old(self).spec_entity(),
            exists|t: TypeId|
                {
                    &&& r@ == bucket_of(old(self)@, t)
                    &&& final(self)@ == old(self)@.remove(t)
                    &&& forall|j: int| 0 <= j < r@.len() ==> (#[trigger] r@[j]).tag() == t
                },
    {
        let tag = type_tag::<M>();
        let ghost before = self@;
        let messages = self.read_tag(&tag);
        let r = MessageIterator::new(messages);
        assert forall|j: int| 0 <= j < r@.len() implies (#[trigger] r@[j]).tag() == tag by {
            assert(before[tag][j] == r@[j]);
        }
        r
    }
}

/// Hands out, front to back, the messages of one payload type taken from a reader.
pub struct MessageIterator<M> {
    messages: Vec<MessageBox>,
    _phantom: PhantomData<M>,
}

impl<M> View for MessageIterator<M> {
    type V = Seq<MessageBox>;

    closed spec fn view(&self) -> Seq<MessageBox> {
        self.messages@
    }
}

impl<M: Any + Send> MessageIterator<M> {
    /// An iterator over `messages`, front first.
    pub(crate) fn new(messages: Vec<MessageBox>) -> (r: Self)
        ensures
            r@ == messages@,
    {
        MessageIterator { messages, _phantom: PhantomData }
    }

    /// Removes the front message and recovers it as `M`; `None` once all are taken.
    /// A message of another type is reported as `Err("Wrong message type")`.
    pub fn next(&mut self) -> (r: Option<Result<M, String>>)
        ensures
            r is None <==> old(self)@.len() == 0,
            old(self)@.len() == 0 ==> final(self)@ == old(self)@,
            old(self)@.len() > 0 ==> final(self)@ == old(self)@.drop_first(),
            r matches Some(Err(s)) ==> s@ == "Wrong message type"@,
    {
        if self.messages.len() == 0 {
            return None;
        }
        let first = self.messages.remove(0);
        assert(self.messages@ =~= old(self)@.drop_first());
        Some(first.downcast::<M>())
    }
}

} // verus!
