//! Facts about searching sequences, used by the lookups of the crate.
use vstd::prelude::*;

verus! {

/// Position of the first element of `s` for which `p` holds, or -1 when there is none.
pub open spec fn first_index<A>(s: Seq<A>, p: spec_fn(A) -> bool) -> int
    decreases s.len(),
{
    if s.len() == 0 {
        -1
    } else if p(s[0]) {
        0
    } else {
        let r = first_index(s.drop_first(), p);
        if r < 0 { -1 } else { r + 1 }
    }
}

pub proof fn lemma_first_index_found<A>(s: Seq<A>, p: spec_fn(A) -> bool, i: int)
    requires
        0 <= i < s.len(),
        p(s[i]),
        forall|j: int| 0 <= j < i ==> !p(s[j]),
    ensures
        first_index(s, p) == i,
    decreases i,
{
    if i > 0 {
        assert(!p(s[0]));
        assert forall|j: int| 0 <= j < i - 1 implies !p(s.drop_first()[j]) by {
            assert(s.drop_first()[j] == s[j + 1]);
        }
        lemma_first_index_found(s.drop_first(), p, i - 1);
    }
}

pub proof fn lemma_first_index_absent<A>(s: Seq<A>, p: spec_fn(A) -> bool)
    requires
        forall|j: int| 0 <= j < s.len() ==> !p(s[j]),
    ensures
        first_index(s, p) == -1,
    decreases s.len(),
{
    if s.len() > 0 {
        assert forall|j: int| 0 <= j < s.len() - 1 implies !p(s.drop_first()[j]) by {
            assert(s.drop_first()[j] == s[j + 1]);
        }
        lemma_first_index_absent(s.drop_first(), p);
    }
}

/// What `first_index` tells: the element found satisfies `p` and no earlier one does;
/// when none is found, no element satisfies `p`.
pub proof fn lemma_first_index_spec<A>(s: Seq<A>, p: spec_fn(A) -> bool)
    ensures
        -1 <= first_index(s, p) < s.len(),
        first_index(s, p) >= 0 ==> p(s[first_index(s, p)]),
        forall|j: int| 0 <= j < first_index(s, p) ==> !p(s[j]),
        first_index(s, p) < 0 ==> forall|j: int| 0 <= j < s.len() ==> !p(s[j]),
    decreases s.len(),
{
    if s.len() > 0 {
        lemma_first_index_spec(s.drop_first(), p);
        let r = first_index(s.drop_first(), p);
        if !p(s[0]) {
            assert forall|j: int| 0 <= j < first_index(s, p) implies !p(s[j]) by {
                if j > 0 {
                    assert(s[j] == s.drop_first()[j - 1]);
                }
            }
            if r < 0 {
                assert forall|j: int| 0 <= j < s.len() implies !p(s[j]) by {
                    if j > 0 {
                        assert(s[j] == s.drop_first()[j - 1]);
                    }
                }
            } else {
                assert(s[r + 1] == s.drop_first()[r]);
            }
        }
    }
}

/// Filtering keeps everything when every element satisfies `p`, and shortens the
/// sequence when one does not.
pub proof fn lemma_filter_all_or_shorter<A>(s: Seq<A>, p: spec_fn(A) -> bool)
    ensures
        (forall|i: int| 0 <= i < s.len() ==> #[trigger] p(s[i])) ==> s.filter(p) == s,
        (exists|i: int| 0 <= i < s.len() && !#[trigger] p(s[i])) ==> s.filter(p).len() < s.len(),
    decreases s.len(),
{
    if s.len() == 0 {
        assert(s.filter(p) =~= s);
    } else {
        let t = s.drop_last();
        lemma_filter_all_or_shorter(t, p);
        assert(s =~= t.push(s.last()));
        t.lemma_filter_push(s.last(), p);
        t.lemma_filter_len(p);
        if forall|i: int| 0 <= i < s.len() ==> #[trigger] p(s[i]) {
            assert forall|i: int| 0 <= i < t.len() implies #[trigger] p(t[i]) by {
                assert(t[i] == s[i]);
            }
            assert(p(s[s.len() - 1]));
        }
        if exists|i: int| 0 <= i < s.len() && !#[trigger] p(s[i]) {
            let i = choose|i: int| 0 <= i < s.len() && !#[trigger] p(s[i]);
            if i < t.len() {
                assert(t[i] == s[i]);
            }
        }
    }
}

/// Inserts `x` into `s` before the first element with a greater key, after all
/// others.
pub open spec fn insert_sorted<A>(s: Seq<A>, x: A, key: spec_fn(A) -> int) -> Seq<A>
    decreases s.len(),
{
    if s.len() == 0 {
        seq![x]
    } else if key(x) < key(s[0]) {
        seq![x] + s
    } else {
        seq![s[0]] + insert_sorted(s.drop_first(), x, key)
    }
}

/// A stable sort by ascending key: elements with equal keys keep their order.
pub open spec fn sort_by_key<A>(s: Seq<A>, key: spec_fn(A) -> int) -> Seq<A>
    decreases s.len(),
{
    if s.len() == 0 {
        s
    } else {
        insert_sorted(sort_by_key(s.drop_last(), key), s.last(), key)
    }
}

/// The keys do not decrease along the sequence.
pub open spec fn sorted_by_key<A>(s: Seq<A>, key: spec_fn(A) -> int) -> bool {
    forall|i: int, j: int| 0 <= i <= j < s.len() ==> key(#[trigger] s[i]) <= key(#[trigger] s[j])
}

/// Inserting at the first position whose element has a greater key is what
/// `insert_sorted` does.
pub proof fn lemma_insert_sorted_at<A>(s: Seq<A>, x: A, key: spec_fn(A) -> int, j: int)
    requires
        0 <= j <= s.len(),
        j < s.len() ==> key(x) < key(s[j]),
        forall|k: int| 0 <= k < j ==> key(#[trigger] s[k]) <= key(x),
    ensures
        insert_sorted(s, x, key) == s.insert(j, x),
    decreases j,
{
    if s.len() == 0 {
        assert(s.insert(j, x) =~= seq![x]);
    } else if j == 0 {
        assert(s.insert(0, x) =~= seq![x] + s);
    } else {
        assert(key(s[0]) <= key(x));
        let t = s.drop_first();
        assert forall|k: int| 0 <= k < j - 1 implies key(#[trigger] t[k]) <= key(x) by {
            assert(t[k] == s[k + 1]);
        }
        lemma_insert_sorted_at(t, x, key, j - 1);
        assert(s.insert(j, x) =~= seq![s[0]] + t.insert(j - 1, x));
    }
}

/// Inserting into a sorted sequence keeps it sorted and adds exactly the element.
pub proof fn lemma_insert_sorted<A>(s: Seq<A>, x: A, key: spec_fn(A) -> int)
    requires
        sorted_by_key(s, key),
    ensures
        sorted_by_key(insert_sorted(s, x, key), key),
        insert_sorted(s, x, key).to_multiset() == s.to_multiset().insert(x),
        insert_sorted(s, x, key).len() == s.len() + 1,
{
    let p = |a: A| key(x) < key(a);
    lemma_first_index_spec(s, p);
    let f = first_index(s, p);
    let j = if f < 0 { s.len() as int } else { f };
    assert forall|k: int| 0 <= k < j implies key(#[trigger] s[k]) <= key(x) by {
        assert(!p(s[k]));
    }
    lemma_insert_sorted_at(s, x, key, j);
    vstd::seq_lib::to_multiset_insert(s, j, x);
    let r = s.insert(j, x);
    assert forall|i: int, m: int| 0 <= i <= m < r.len() implies key(#[trigger] r[i]) <= key(#[trigger] r[m]) by {
        if m < j {
            assert(r[i] == s[i] && r[m] == s[m]);
        } else if m == j {
            if i < j {
                assert(r[i] == s[i]);
            }
        } else {
            assert(r[m] == s[m - 1]);
            if i < j {
                assert(r[i] == s[i]);
            } else if i == j {
                assert(p(s[j]));
                assert(key(s[j]) <= key(s[m - 1]));
            } else {
                assert(r[i] == s[i - 1]);
            }
        }
    }
}

/// A stable sort by key gives a sorted sequence with the same elements.
pub proof fn lemma_sort_by_key<A>(s: Seq<A>, key: spec_fn(A) -> int)
    ensures
        sorted_by_key(sort_by_key(s, key), key),
        sort_by_key(s, key).to_multiset() == s.to_multiset(),
        sort_by_key(s, key).len() == s.len(),
    decreases s.len(),
{
    if s.len() > 0 {
        lemma_sort_by_key(s.drop_last(), key);
        vstd::seq_lib::to_multiset_insert(s.drop_last(), s.len() - 1, s.last());
        lemma_insert_sorted(sort_by_key(s.drop_last(), key), s.last(), key);
        assert(s =~= s.drop_last().insert(s.len() - 1, s.last()));
    } else {
        assert(s.to_multiset() =~= sort_by_key(s, key).to_multiset());
    }
}

/// Finding the first element of `s` that satisfies `p` by scanning from the front.
pub proof fn lemma_filter_step<A>(s: Seq<A>, p: spec_fn(A) -> bool, i: int)
    requires
        0 <= i < s.len(),
    ensures
        s.take(i + 1).filter(p) == if p(s[i]) {
            s.take(i).filter(p).push(s[i])
        } else {
            s.take(i).filter(p)
        },
{
    assert(s.take(i + 1) =~= s.take(i).push(s[i]));
    s.take(i).lemma_filter_push(s[i], p);
}

} // verus!
