use std::any::TypeId;
use vstd::prelude::*;

use crate::assoc::{assoc_view, distinct_keys, has_key, lemma_at, lemma_insert, lemma_remove, lemma_update};
use crate::message::{same_tag, MessageBox};

verus! {

/// The messages filed under `tag`, or none when there is no such bucket.
pub open spec fn bucket_of(m: Map<TypeId, Seq<MessageBox>>, tag: TypeId) -> Seq<MessageBox> {
    if m.contains_key(tag) {
        m[tag]
    } else {
        Seq::empty()
    }
}

/// Every message is filed under the tag of its own type.
pub open spec fn tags_match(m: Map<TypeId, Seq<MessageBox>>) -> bool {
    forall|t: TypeId, j: int|
        #![trigger m[t][j]]
        m.contains_key(t) && 0 <= j < m[t].len() ==> m[t][j].tag() == t
}

/// `m` after appending `b` to the end of the bucket of its type.
pub open spec fn filed(m: Map<TypeId, Seq<MessageBox>>, b: MessageBox) -> Map<TypeId, Seq<MessageBox>> {
    m.insert(b.tag(), bucket_of(m, b.tag()).push(b))
}

pub open spec fn entry_views(s: Seq<(TypeId, Vec<MessageBox>)>) -> Seq<(TypeId, Seq<MessageBox>)> {
    s.map_values(|p: (TypeId, Vec<MessageBox>)| (p.0, p.1@))
}

/// The messages of one entity, grouped by payload type; each group in arrival order.
pub struct TypeBuckets {
    entries: Vec<(TypeId, Vec<MessageBox>)>,
}

impl View for TypeBuckets {
    type V = Map<TypeId, Seq<MessageBox>>;

    closed spec fn view(&self) -> Map<TypeId, Seq<MessageBox>> {
        assoc_view(entry_views(self.entries@))
    }
}

impl TypeBuckets {
    pub closed spec fn keys_distinct(&self) -> bool {
        distinct_keys(entry_views(self.entries@))
    }

    /// Well-formed: one bucket per tag, each message under the tag of its type.
    pub open spec fn wf(&self) -> bool {
        self.keys_distinct() && tags_match(self@)
    }

    /// No buckets at all.
    pub fn new() -> (r: Self)
        ensures
            r.wf(),
            r@ == Map::<TypeId, Seq<MessageBox>>::empty(),
    {
        let r = TypeBuckets { entries: Vec::new() };
        assert(r@ =~= Map::<TypeId, Seq<MessageBox>>::empty());
        r
    }

    fn find(&self, tag: &TypeId) -> (r: Option<usize>)
        ensures
            r matches Some(i) ==> i < self.entries@.len() && self.entries@[i as int].0 == *tag,
            r is None ==> forall|j: int| 0 <= j < self.entries@.len() ==> self.entries@[j].0 != *tag,
    {
        let mut i: usize = 0;
        while i < self.entries.len()
            invariant
                0 <= i <= self.entries@.len(),
                forall|j: int| 0 <= j < i ==> self.entries@[j].0 != *tag,
            decreases self.entries@.len() - i,
        {
            if same_tag(&self.entries[i].0, tag) {
                return Some(i);
            }
            i += 1;
        }
        None
    }

    proof fn lemma_absent(&self, tag: TypeId)
        requires
            forall|j: int| 0 <= j < self.entries@.len() ==> self.entries@[j].0 != tag,
        ensures
            !has_key(entry_views(self.entries@), tag),
            !self@.contains_key(tag),
    {
        let s = entry_views(self.entries@);
        if has_key(s, tag) {
            let j = choose|j: int| 0 <= j < s.len() && #[trigger] s[j].0 == tag;
            assert(self.entries@[j].0 == tag);
        }
    }

    /// True when a bucket for `tag` exists.
    pub fn contains(&self, tag: &TypeId) -> (r: bool)
        requires
            self.wf(),
        ensures
            r == self@.contains_key(*tag),
    {
        match self.find(tag) {
            Some(i) => {
                proof {
                    lemma_at(entry_views(self.entries@), i as int);
                }
                true
            },
            None => {
                proof {
                    self.lemma_absent(*tag);
                }
                false
            },
        }
    }

    /// True when there are no buckets.
    pub fn is_empty(&self) -> (r: bool)
        requires
            self.wf(),
        ensures
            r == (self@ == Map::<TypeId, Seq<MessageBox>>::empty()),
    {
        if self.entries.len() == 0 {
            assert(self@ =~= Map::<TypeId, Seq<MessageBox>>::empty());
            true
        } else {
            proof {
                lemma_at(entry_views(self.entries@), 0);
                assert(!(self@ =~= Map::<TypeId, Seq<MessageBox>>::empty()));
            }
            false
        }
    }

    /// Appends `b` to the end of the bucket of its type, creating the bucket if needed.
    pub fn push(&mut self, b: MessageBox)
        requires
            old(self).wf(),
        ensures
            final(self).wf(),
            final(self)@ == filed(old(self)@, b),
    {
        let tag = b.message_type();
        let ghost old_entries = self.entries@;
        let ghost old_view = self@;
        match self.find(&tag) {
            Some(i) => {
                let (t, mut msgs) = self.entries.remove(i);
                msgs.push(b);
                self.entries.insert(i, (t, msgs));
                proof {
                    let s = entry_views(old_entries);
                    assert(self.entries@ =~= old_entries.update(i as int, (t, msgs)));
                    assert(entry_views(self.entries@) =~= s.update(i as int, (s[i as int].0, msgs@)));
                    lemma_at(s, i as int);
                    lemma_update(s, i as int, msgs@);
                }
            },
            None => {
                let ghost n = old_entries.len();
                let mut msgs: Vec<MessageBox> = Vec::new();
                msgs.push(b);
                self.entries.push((tag, msgs));
                proof {
                    let s = entry_views(old_entries);
                    self.lemma_absent_old(old_entries, tag);
                    assert(entry_views(self.entries@) =~= s.insert(n as int, (tag, msgs@)));
                    assert(msgs@ =~= bucket_of(old_view, tag).push(b));
                    lemma_insert(s, n as int, tag, msgs@);
                }
            },
        }
        assert(self@ == filed(old_view, b));
        assert forall|t: TypeId, j: int|
            #![trigger self@[t][j]]
            self@.contains_key(t) && 0 <= j < self@[t].len() implies self@[t][j].tag() == t by {
            if t != tag {
                assert(old_view.contains_key(t));
                assert(self@[t] == old_view[t]);
            } else if j < bucket_of(old_view, tag).len() {
                assert(self@[t][j] == old_view[t][j]);
            }
        }
    }

    proof fn lemma_absent_old(&self, old_entries: Seq<(TypeId, Vec<MessageBox>)>, tag: TypeId)
        requires
            forall|j: int| 0 <= j < old_entries.len() ==> old_entries[j].0 != tag,
        ensures
            !has_key(entry_views(old_entries), tag),
            !assoc_view(entry_views(old_entries)).contains_key(tag),
    {
        let s = entry_views(old_entries);
        if has_key(s, tag) {
            let j = choose|j: int| 0 <= j < s.len() && #[trigger] s[j].0 == tag;
            assert(old_entries[j].0 == tag);
        }
    }

    /// Removes the whole bucket for `tag` and returns its messages, or none if absent.
    pub fn take(&mut self, tag: &TypeId) -> (r: Vec<MessageBox>)
        requires
            old(self).wf(),
        ensures
            final(self).wf(),
            r@ == bucket_of(old(self)@, *tag),
            final(self)@ == old(self)@.remove(*tag),
    {
        let ghost old_entries = self.entries@;
        let ghost old_view = self@;
        match self.find(tag) {
            Some(i) => {
                let (_t, msgs) = self.entries.remove(i);
                proof {
                    let s = entry_views(old_entries);
                    assert(entry_views(self.entries@) =~= s.remove(i as int));
                    lemma_at(s, i as int);
                    lemma_remove(s, i as int);
                }
                assert forall|t: TypeId, j: int|
                    #![trigger self@[t][j]]
                    self@.contains_key(t) && 0 <= j < self@[t].len() implies self@[t][j].tag()
                        == t by {
                    assert(old_view.contains_key(t));
                }
                msgs
            },
            None => {
                proof {
                    self.lemma_absent(*tag);
                    assert(self@ =~= old_view.remove(*tag));
                }
                Vec::new()
            },
        }
    }
}

} // verus!
