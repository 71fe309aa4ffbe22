use std::any::TypeId;
use vstd::prelude::*;

use crate::assoc::{assoc_view, distinct_keys, has_key, lemma_at, lemma_insert, lemma_remove, lemma_update};
use crate::buckets::{filed, TypeBuckets};
use crate::entity::Entity;
use crate::message::MessageBox;

verus! {

/// What a store holds: for each entity with an entry, its messages grouped by type.
pub type MessageMap = Map<Entity, Map<TypeId, Seq<MessageBox>>>;

/// The buckets of `e`, or none when `e` has no entry.
pub open spec fn buckets_for(m: MessageMap, e: Entity) -> Map<TypeId, Seq<MessageBox>> {
    if m.contains_key(e) {
        m[e]
    } else {
        Map::empty()
    }
}

/// `m` after the message `b` has been enqueued for its target.
pub open spec fn enqueued(m: MessageMap, b: MessageBox) -> MessageMap {
    m.insert(b.spec_target(), filed(buckets_for(m, b.spec_target()), b))
}

/// `m` after the messages of `bs` have been enqueued, first to last.
pub open spec fn enqueued_all(m: MessageMap, bs: Seq<MessageBox>) -> MessageMap
    decreases bs.len(),
{
    if bs.len() == 0 {
        m
    } else {
        enqueued(enqueued_all(m, bs.drop_last()), bs.last())
    }
}

/// Every message is filed under the entity it is addressed to.
pub open spec fn targets_match(m: MessageMap) -> bool {
    forall|e: Entity, t: TypeId, j: int|
        #![trigger m[e][t][j]]
        m.contains_key(e) && m[e].contains_key(t) && 0 <= j < m[e][t].len() ==> m[e][t][j].spec_target()
            == e
}

/// Entities in strictly increasing order of id.
pub open spec fn ascending(s: Seq<Entity>) -> bool {
    forall|i: int, j: int| 0 <= i < j < s.len() ==> (#[trigger] s[i]).0 < (#[trigger] s[j]).0
}

pub open spec fn entity_views(s: Seq<(Entity, TypeBuckets)>) -> Seq<(Entity, Map<TypeId, Seq<MessageBox>>)> {
    s.map_values(|p: (Entity, TypeBuckets)| (p.0, p.1@))
}

/// The single-threaded message store: entity -> payload type -> messages in arrival order.
pub struct MessageStore {
    entries: Vec<(Entity, TypeBuckets)>,
}

impl View for MessageStore {
    type V = MessageMap;

    closed spec fn view(&self) -> MessageMap {
        assoc_view(entity_views(self.entries@))
    }
}

impl MessageStore {
    pub closed spec fn layout_ok(&self) -> bool {
        &&& ascending(self.entries@.map_values(|p: (Entity, TypeBuckets)| p.0))
        &&& forall|i: int| 0 <= i < self.entries@.len() ==> (#[trigger] self.entries@[i]).1.wf()
    }

    /// Well-formed: entries kept in entity order, buckets well formed, and every
    /// message filed under its own target and its own type.
    pub open spec fn wf(&self) -> bool {
        &&& self.layout_ok()
        &&& targets_match(self@)
        &&& forall|e: Entity| #[trigger] self@.contains_key(e) ==> crate::buckets::tags_match(self@[e])
    }

    proof fn lemma_distinct(&self)
        requires
            self.layout_ok(),
        ensures
            distinct_keys(entity_views(self.entries@)),
    {
        let s = entity_views(self.entries@);
        let ks = self.entries@.map_values(|p: (Entity, TypeBuckets)| p.0);
        assert forall|a: int, b: int|
            0 <= a < s.len() && 0 <= b < s.len() && #[trigger] s[a].0 == #[trigger] s[b].0 implies a
            == b by {
            assert(ks[a] == s[a].0);
            assert(ks[b] == s[b].0);
            if a < b {
                assert(ks[a].0 < ks[b].0);
            } else if b < a {
                assert(ks[b].0 < ks[a].0);
            }
        }
    }

    proof fn lemma_wf_at(&self, i: int)
        requires
            self.wf(),
            0 <= i < self.entries@.len(),
        ensures
            self@.contains_key(self.entries@[i].0),
            self@[self.entries@[i].0] == self.entries@[i].1@,
            self.entries@[i].1.wf(),
    {
        self.lemma_distinct();
        lemma_at(entity_views(self.entries@), i);
    }

    /// An empty store.
    pub fn new() -> (r: Self)
        ensures
            r.wf(),
            r@ == MessageMap::empty(),
    {
        let r = MessageStore { entries: Vec::new() };
        assert(r@ =~= MessageMap::empty());
        r
    }

    /// The first position whose entity is not below `e` in the order of ids.
    fn position(&self, e: Entity) -> (r: usize)
        requires
            self.layout_ok(),
        ensures
            r <= self.entries@.len(),
            forall|j: int| 0 <= j < r ==> (#[trigger] self.entries@[j]).0.0 < e.0,
            forall|j: int| r <= j < self.entries@.len() ==> (#[trigger] self.entries@[j]).0.0 >= e.0,
    {
        let ghost ks = self.entries@.map_values(|p: (Entity, TypeBuckets)| p.0);
        let mut i: usize = 0;
        while i < self.entries.len() && self.entries[i].0.0 < e.0
            invariant
                0 <= i <= self.entries@.len(),
                forall|j: int| 0 <= j < i ==> (#[trigger] self.entries@[j]).0.0 < e.0,
            decreases self.entries@.len() - i,
        {
            i += 1;
        }
        proof {
            if i < self.entries@.len() {
                assert forall|j: int| i <= j < self.entries@.len() implies (
                #[trigger] self.entries@[j]).0.0 >= e.0 by {
                    if j > i {
                        assert(ks[i as int].0 < ks[j].0);
                    }
                }
            }
        }
        i
    }

    /// Appends `b` to the end of the bucket (target of `b`, type of `b`),
    /// creating the entity's entry and the bucket when needed.
    pub fn push(&mut self, b: MessageBox)
        requires
            old(self).wf(),
        ensures
            final(self).wf(),
            final(self)@ == enqueued(old(self)@, b),
    {
        let target = b.target();
        let ghost old_entries = self.entries@;
        let ghost old_view = self@;
        let ghost old_ks = old_entries.map_values(|p: (Entity, TypeBuckets)| p.0);
        proof {
            self.lemma_distinct();
        }
        let i = self.position(target);
        if i < self.entries.len() && self.entries[i].0.0 == target.0 {
            proof {
                self.lemma_wf_at(i as int);
            }
            let (e, mut tb) = self.entries.remove(i);
            tb.push(b);
            self.entries.insert(i, (e, tb));
            proof {
                let s = entity_views(old_entries);
                assert(self.entries@ =~= old_entries.update(i as int, (e, tb)));
                assert(entity_views(self.entries@) =~= s.update(i as int, (s[i as int].0, tb@)));
                assert(self.entries@.map_values(|p: (Entity, TypeBuckets)| p.0) =~= old_ks);
                lemma_update(s, i as int, tb@);
                assert forall|j: int| 0 <= j < self.entries@.len() implies (
                #[trigger] self.entries@[j]).1.wf() by {
                    if j != i {
                        assert(self.entries@[j] == old_entries[j]);
                    }
                }
            }
        } else {
            let mut tb = TypeBuckets::new();
            tb.push(b);
            self.entries.insert(i, (target, tb));
            proof {
                let s = entity_views(old_entries);
                self.lemma_absent_old(old_entries, target, i as int);
                assert(entity_views(self.entries@) =~= s.insert(i as int, (target, tb@)));
                lemma_insert(s, i as int, target, tb@);
                let ks = self.entries@.map_values(|p: (Entity, TypeBuckets)| p.0);
                assert(ks =~= old_ks.insert(i as int, target));
                assert forall|a: int, c: int| 0 <= a < c < ks.len() implies (#[trigger] ks[a]).0 < (
                #[trigger] ks[c]).0 by {
                    if c < i {
                        assert(old_ks[a].0 < old_ks[c].0);
                    } else if c == i {
                        assert(old_entries[a].0.0 < target.0);
                    } else if a == i {
                        assert(old_entries[c - 1].0.0 >= target.0);
                    } else if a > i {
                        assert(old_ks[a - 1].0 < old_ks[c - 1].0);
                    } else {
                        assert(old_ks[a].0 < old_ks[c - 1].0);
                    }
                }
                assert forall|j: int| 0 <= j < self.entries@.len() implies (
                #[trigger] self.entries@[j]).1.wf() by {
                    if j < i {
                        assert(self.entries@[j] == old_entries[j]);
                    } else if j > i {
                        assert(self.entries@[j] == old_entries[j - 1]);
                    }
                }
                assert(buckets_for(old_view, target) == Map::<TypeId, Seq<MessageBox>>::empty());
            }
        }
        assert(self@ == enqueued(old_view, b));
        assert forall|e: Entity, t: TypeId, j: int|
            #![trigger self@[e][t][j]]
            self@.contains_key(e) && self@[e].contains_key(t) && 0 <= j < self@[e][t].len() implies self@[e][t][j].spec_target()
                == e by {
            if e != target {
                assert(self@[e] == old_view[e]);
            } else if t != b.tag() {
                assert(old_view[e][t] == self@[e][t]);
            } else if j < self@[e][t].len() - 1 {
                assert(old_view[e][t][j] == self@[e][t][j]);
            }
        }
        assert forall|e: Entity| #[trigger] self@.contains_key(e) implies crate::buckets::tags_match(
            self@[e],
        ) by {
            if e != target {
                assert(self@[e] == old_view[e]);
            } else {
                let k = choose|k: int|
                    0 <= k < entity_views(self.entries@).len() && #[trigger] entity_views(
                        self.entries@,
                    )[k].0 == e;
                self.lemma_wf_at(k);
            }
        }
    }

    proof fn lemma_absent_old(&self, old_entries: Seq<(Entity, TypeBuckets)>, e: Entity, p: int)
        requires
            0 <= p <= old_entries.len(),
            forall|j: int| 0 <= j < p ==> (#[trigger] old_entries[j]).0.0 < e.0,
            forall|j: int| p <= j < old_entries.len() ==> (#[trigger] old_entries[j]).0.0 >= e.0,
            p < old_entries.len() ==> old_entries[p].0.0 != e.0,
            ascending(old_entries.map_values(|q: (Entity, TypeBuckets)| q.0)),
        ensures
            !has_key(entity_views(old_entries), e),
    {
        let s = entity_views(old_entries);
        let ks = old_entries.map_values(|q: (Entity, TypeBuckets)| q.0);
        if has_key(s, e) {
            let j = choose|j: int| 0 <= j < s.len() && #[trigger] s[j].0 == e;
            assert(old_entries[j].0 == e);
            if j > p {
                assert(ks[p].0 < ks[j].0);
            }
        }
    }
    /// Finds the entry of `e`: its position, or where it would stand.
    fn locate(&self, e: Entity) -> (r: (usize, bool))
        requires
            self.wf(),
        ensures
            r.0 <= self.entries@.len(),
            r.1 ==> r.0 < self.entries@.len() && self.entries@[r.0 as int].0 == e,
            !r.1 ==> !self@.contains_key(e),
    {
        let i = self.position(e);
        if i < self.entries.len() && self.entries[i].0.0 == e.0 {
            (i, true)
        } else {
            proof {
                self.lemma_absent_old(self.entries@, e, i as int);
            }
            (i, false)
        }
    }

    /// Removes the entry of `e` and returns its buckets (no buckets when it has none).
    pub fn take(&mut self, e: Entity) -> (r: TypeBuckets)
        requires
            old(self).wf(),
        ensures
            final(self).wf(),
            r.wf(),
            r@ == buckets_for(old(self)@, e),
            final(self)@ == old(self)@.remove(e),
    {
        let ghost old_entries = self.entries@;
        let ghost old_view = self@;
        let ghost old_ks = old_entries.map_values(|p: (Entity, TypeBuckets)| p.0);
        let (i, found) = self.locate(e);
        if found {
            proof {
                self.lemma_wf_at(i as int);
                self.lemma_distinct();
            }
            let (_e, tb) = self.entries.remove(i);
            proof {
                let s = entity_views(old_entries);
                assert(entity_views(self.entries@) =~= s.remove(i as int));
                lemma_remove(s, i as int);
                let ks = self.entries@.map_values(|p: (Entity, TypeBuckets)| p.0);
                assert(ks =~= old_ks.remove(i as int));
                assert forall|a: int, c: int| 0 <= a < c < ks.len() implies (#[trigger] ks[a]).0 < (
                #[trigger] ks[c]).0 by {
                    let a2 = if a < i { a } else { a + 1 };
                    let c2 = if c < i { c } else { c + 1 };
                    assert(old_ks[a2].0 < old_ks[c2].0);
                }
                assert forall|j: int| 0 <= j < self.entries@.len() implies (
                #[trigger] self.entries@[j]).1.wf() by {
                    let j2 = if j < i { j } else { j + 1 };
                    assert(self.entries@[j] == old_entries[j2]);
                }
                assert forall|q: Entity| #[trigger] self@.contains_key(q) implies crate::buckets::tags_match(
                    self@[q],
                ) by {
                    assert(old_view.contains_key(q));
                }
            }
            tb
        } else {
            proof {
                assert(self@ =~= old_view.remove(e));
            }
            TypeBuckets::new()
        }
    }

    /// Removes the entry of `e`, dropping its messages.
    pub fn discard(&mut self, e: Entity)
        requires
            old(self).wf(),
        ensures
            final(self).wf(),
            final(self)@ == old(self)@.remove(e),
    {
        let _dropped = self.take(e);
    }

    /// The entities that have an entry, in increasing order of id.
    pub fn entities(&self) -> (r: Vec<Entity>)
        requires
            self.wf(),
        ensures
            ascending(r@),
            forall|e: Entity| r@.contains(e) <==> self@.contains_key(e),
            r@.len() == self@.dom().len(),
    {
        let ghost ks = self.entries@.map_values(|p: (Entity, TypeBuckets)| p.0);
        let mut r: Vec<Entity> = Vec::new();
        let mut i: usize = 0;
        while i < self.entries.len()
            invariant
                0 <= i <= self.entries@.len(),
                ks == self.entries@.map_values(|p: (Entity, TypeBuckets)| p.0),
                r@ == ks.subrange(0, i as int),
            decreases self.entries@.len() - i,
        {
            r.push(self.entries[i].0);
            i += 1;
            assert(r@ =~= ks.subrange(0, i as int));
        }
        assert(r@ =~= ks);
        proof {
            self.lemma_keys(ks);
        }
        r
    }

    proof fn lemma_keys(&self, ks: Seq<Entity>)
        requires
            self.wf(),
            ks == self.entries@.map_values(|p: (Entity, TypeBuckets)| p.0),
        ensures
            forall|e: Entity| ks.contains(e) <==> self@.contains_key(e),
            ks.len() == self@.dom().len(),
    {
        let s = entity_views(self.entries@);
        assert forall|e: Entity| ks.contains(e) <==> self@.contains_key(e) by {
            if ks.contains(e) {
                let j = choose|j: int| 0 <= j < ks.len() && ks[j] == e;
                assert(s[j].0 == e);
            }
            if self@.contains_key(e) {
                let j = choose|j: int| 0 <= j < s.len() && #[trigger] s[j].0 == e;
                assert(ks[j] == e);
            }
        }
        assert(ks.no_duplicates()) by {
            assert forall|a: int, c: int| 0 <= a < ks.len() && 0 <= c < ks.len() && a != c implies ks[a]
                != ks[c] by {
                if a < c {
                    assert(ks[a].0 < ks[c].0);
                } else {
                    assert(ks[c].0 < ks[a].0);
                }
            }
        }
        ks.unique_seq_to_set();
        assert(ks.to_set() =~= self@.dom());
    }

    /// The number of entities that have an entry.
    pub fn len(&self) -> (r: usize)
        requires
            self.wf(),
        ensures
            r == self@.dom().len(),
    {
        proof {
            self.lemma_keys(self.entries@.map_values(|p: (Entity, TypeBuckets)| p.0));
        }
        self.entries.len()
    }

    /// True when no entity has an entry.
    pub fn is_empty(&self) -> (r: bool)
        requires
            self.wf(),
        ensures
            r == (self@.dom().len() == 0),
    {
        self.len() == 0
    }
}

} // verus!
