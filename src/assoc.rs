use vstd::prelude::*;

verus! {

/// No key occurs twice in the association list.
pub open spec fn distinct_keys<K, V>(s: Seq<(K, V)>) -> bool {
    forall|i: int, j: int|
        0 <= i < s.len() && 0 <= j < s.len() && #[trigger] s[i].0 == #[trigger] s[j].0 ==> i == j
}

/// Some entry of the association list has key `k`.
pub open spec fn has_key<K, V>(s: Seq<(K, V)>, k: K) -> bool {
    exists|i: int| 0 <= i < s.len() && #[trigger] s[i].0 == k
}

/// The map an association list stands for.
pub open spec fn assoc_view<K, V>(s: Seq<(K, V)>) -> Map<K, V> {
    Map::new(
        |k: K| has_key(s, k),
        |k: K| s[choose|i: int| 0 <= i < s.len() && #[trigger] s[i].0 == k].1,
    )
}

pub proof fn lemma_at<K, V>(s: Seq<(K, V)>, i: int)
    requires
        distinct_keys(s),
        0 <= i < s.len(),
    ensures
        assoc_view(s).contains_key(s[i].0),
        assoc_view(s)[s[i].0] == s[i].1,
{
    let k = s[i].0;
    assert(has_key(s, k));
    let j = choose|j: int| 0 <= j < s.len() && #[trigger] s[j].0 == k;
    assert(s[j].0 == s[i].0);
}

pub proof fn lemma_update<K, V>(s: Seq<(K, V)>, i: int, v: V)
    requires
        distinct_keys(s),
        0 <= i < s.len(),
    ensures
        distinct_keys(s.update(i, (s[i].0, v))),
        assoc_view(s.update(i, (s[i].0, v))) == assoc_view(s).insert(s[i].0, v),
{
    let t = s.update(i, (s[i].0, v));
    assert forall|a: int, b: int|
        0 <= a < t.len() && 0 <= b < t.len() && #[trigger] t[a].0 == #[trigger] t[b].0 implies a == b by {
        assert(t[a].0 == s[a].0);
        assert(t[b].0 == s[b].0);
    }
    lemma_at(t, i);
    assert forall|k: K| #[trigger] has_key(t, k) == has_key(s, k) by {
        if has_key(s, k) {
            let j = choose|j: int| 0 <= j < s.len() && #[trigger] s[j].0 == k;
            assert(t[j].0 == k);
        }
        if has_key(t, k) {
            let j = choose|j: int| 0 <= j < t.len() && #[trigger] t[j].0 == k;
            assert(s[j].0 == k);
        }
    }
    assert forall|k: K| #[trigger] assoc_view(t).contains_key(k) && k != s[i].0 implies assoc_view(
        t,
    )[k] == assoc_view(s)[k] by {
        let j = choose|j: int| 0 <= j < t.len() && #[trigger] t[j].0 == k;
        assert(s[j].0 == k);
        lemma_at(t, j);
        lemma_at(s, j);
    }
    assert(assoc_view(t) =~= assoc_view(s).insert(s[i].0, v));
}

pub proof fn lemma_insert<K, V>(s: Seq<(K, V)>, i: int, k: K, v: V)
    requires
        distinct_keys(s),
        !has_key(s, k),
        0 <= i <= s.len(),
    ensures
        distinct_keys(s.insert(i, (k, v))),
        assoc_view(s.insert(i, (k, v))) == assoc_view(s).insert(k, v),
{
    let t = s.insert(i, (k, v));
    assert forall|a: int, b: int|
        0 <= a < t.len() && 0 <= b < t.len() && #[trigger] t[a].0 == #[trigger] t[b].0 implies a == b by {
        if a != i && b != i {
            let a2 = if a < i { a } else { a - 1 };
            let b2 = if b < i { b } else { b - 1 };
            assert(t[a].0 == s[a2].0);
            assert(t[b].0 == s[b2].0);
        } else if a != i {
            let a2 = if a < i { a } else { a - 1 };
            assert(t[a].0 == s[a2].0);
        } else if b != i {
            let b2 = if b < i { b } else { b - 1 };
            assert(t[b].0 == s[b2].0);
        }
    }
    lemma_at(t, i);
    assert forall|q: K| #[trigger] assoc_view(t).contains_key(q) == (assoc_view(
        s,
    ).contains_key(q) || q == k) by {
        if has_key(s, q) {
            let j = choose|j: int| 0 <= j < s.len() && #[trigger] s[j].0 == q;
            let j2 = if j < i { j } else { j + 1 };
            assert(t[j2].0 == q);
        }
        if has_key(t, q) && q != k {
            let j = choose|j: int| 0 <= j < t.len() && #[trigger] t[j].0 == q;
            let j2 = if j < i { j } else { j - 1 };
            assert(s[j2].0 == q);
        }
    }
    assert forall|q: K| #[trigger] assoc_view(t).contains_key(q) && q != k implies assoc_view(
        t,
    )[q] == assoc_view(s)[q] by {
        let j = choose|j: int| 0 <= j < t.len() && #[trigger] t[j].0 == q;
        let j2 = if j < i { j } else { j - 1 };
        assert(s[j2] == t[j]);
        lemma_at(t, j);
        lemma_at(s, j2);
    }
    assert(assoc_view(t) =~= assoc_view(s).insert(k, v));
}

pub proof fn lemma_remove<K, V>(s: Seq<(K, V)>, i: int)
    requires
        distinct_keys(s),
        0 <= i < s.len(),
    ensures
        distinct_keys(s.remove(i)),
        assoc_view(s.remove(i)) == assoc_view(s).remove(s[i].0),
{
    let t = s.remove(i);
    let k = s[i].0;
    assert forall|a: int, b: int|
        0 <= a < t.len() && 0 <= b < t.len() && #[trigger] t[a].0 == #[trigger] t[b].0 implies a == b by {
        let a2 = if a < i { a } else { a + 1 };
        let b2 = if b < i { b } else { b + 1 };
        assert(t[a].0 == s[a2].0);
        assert(t[b].0 == s[b2].0);
    }
    assert forall|q: K| #[trigger] assoc_view(t).contains_key(q) == (assoc_view(
        s,
    ).contains_key(q) && q != k) by {
        if has_key(s, q) && q != k {
            let j = choose|j: int| 0 <= j < s.len() && #[trigger] s[j].0 == q;
            let j2 = if j < i { j } else { j - 1 };
            assert(t[j2].0 == q);
        }
        if has_key(t, q) {
            let j = choose|j: int| 0 <= j < t.len() && #[trigger] t[j].0 == q;
            let j2 = if j < i { j } else { j + 1 };
            assert(s[j2].0 == q);
        }
    }
    assert forall|q: K| #[trigger] assoc_view(t).contains_key(q) implies assoc_view(t)[q]
        == assoc_view(s)[q] by {
        let j = choose|j: int| 0 <= j < t.len() && #[trigger] t[j].0 == q;
        let j2 = if j < i { j } else { j + 1 };
        assert(s[j2] == t[j]);
        lemma_at(t, j);
        lemma_at(s, j2);
    }
    assert(assoc_view(t) =~= assoc_view(s).remove(k));
}

} // verus!
