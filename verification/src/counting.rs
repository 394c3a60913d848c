//! Counting the elements of a sequence that satisfy a predicate, and how the
//! count behaves under the edits the board performs.
use vstd::prelude::*;

verus! {

/// How many elements of `s` satisfy `p`.
pub open spec fn count_where<T>(s: Seq<T>, p: spec_fn(T) -> bool) -> nat
    decreases s.len(),
{
    if s.len() == 0 {
        0
    } else {
        count_where(s.drop_last(), p) + if p(s.last()) {
            1nat
        } else {
            0nat
        }
    }
}

/// No more elements are counted than there are.
pub proof fn lemma_count_bounded<T>(s: Seq<T>, p: spec_fn(T) -> bool)
    ensures
        count_where(s, p) <= s.len(),
    decreases s.len(),
{
    if s.len() > 0 {
        lemma_count_bounded(s.drop_last(), p);
    }
}

/// One more element adds one to the count exactly when it satisfies `p`.
pub proof fn lemma_count_push<T>(s: Seq<T>, x: T, p: spec_fn(T) -> bool)
    ensures
        count_where(s.push(x), p) == count_where(s, p) + if p(x) {
            1nat
        } else {
            0nat
        },
{
    assert(s.push(x).drop_last() =~= s);
}

/// The count of a concatenation is the sum of the counts.
pub proof fn lemma_count_concat<T>(a: Seq<T>, b: Seq<T>, p: spec_fn(T) -> bool)
    ensures
        count_where(a + b, p) == count_where(a, p) + count_where(b, p),
    decreases b.len(),
{
    if b.len() == 0 {
        assert(a + b =~= a);
    } else {
        lemma_count_concat(a, b.drop_last(), p);
        assert((a + b).drop_last() =~= a + b.drop_last());
    }
}

/// A single element counts one exactly when it satisfies `p`.
pub proof fn lemma_count_single<T>(x: T, p: spec_fn(T) -> bool)
    ensures
        count_where(seq![x], p) == if p(x) {
            1nat
        } else {
            0nat
        },
{
    assert(seq![x].drop_last() =~= Seq::<T>::empty());
    assert(count_where(Seq::<T>::empty(), p) == 0);
}

/// Splitting a sequence around one index splits the count.
pub proof fn lemma_count_split<T>(s: Seq<T>, k: int, p: spec_fn(T) -> bool)
    requires
        0 <= k < s.len(),
    ensures
        count_where(s, p) == count_where(s.take(k), p) + count_where(s.skip(k + 1), p) + if p(
            s[k],
        ) {
            1nat
        } else {
            0nat
        },
{
    lemma_count_single(s[k], p);
    lemma_count_concat(s.take(k), seq![s[k]], p);
    lemma_count_concat(s.take(k) + seq![s[k]], s.skip(k + 1), p);
    assert(s =~= s.take(k) + seq![s[k]] + s.skip(k + 1));
}

/// Removing an element takes one from the count exactly when it satisfies `p`.
pub proof fn lemma_count_remove<T>(s: Seq<T>, k: int, p: spec_fn(T) -> bool)
    requires
        0 <= k < s.len(),
    ensures
        count_where(s, p) == count_where(s.remove(k), p) + if p(s[k]) {
            1nat
        } else {
            0nat
        },
{
    lemma_count_split(s, k, p);
    lemma_count_concat(s.take(k), s.skip(k + 1), p);
    assert(s.remove(k) =~= s.take(k) + s.skip(k + 1));
}

/// Inserting an element adds one to the count exactly when it satisfies `p`.
pub proof fn lemma_count_insert<T>(s: Seq<T>, k: int, x: T, p: spec_fn(T) -> bool)
    requires
        0 <= k <= s.len(),
    ensures
        count_where(s.insert(k, x), p) == count_where(s, p) + if p(x) {
            1nat
        } else {
            0nat
        },
{
    let t = s.insert(k, x);
    assert(t.len() == s.len() + 1 && t[k] == x && t.remove(k) =~= s) by {
        s.insert_ensures(k, x);
    }
    lemma_count_remove(t, k, p);
}

/// A positive count has a witness.
pub proof fn lemma_count_witness<T>(s: Seq<T>, p: spec_fn(T) -> bool) -> (k: int)
    requires
        count_where(s, p) > 0,
    ensures
        0 <= k < s.len(),
        p(s[k]),
    decreases s.len(),
{
    if p(s.last()) {
        s.len() - 1
    } else {
        lemma_count_witness(s.drop_last(), p)
    }
}

/// Two different indices that satisfy `p` make the count at least two.
pub proof fn lemma_count_two<T>(s: Seq<T>, i: int, j: int, p: spec_fn(T) -> bool)
    requires
        0 <= i < j < s.len(),
        p(s[i]),
        p(s[j]),
    ensures
        count_where(s, p) >= 2,
{
    lemma_count_split(s, j, p);
    lemma_count_split(s.take(j), i, p);
    assert(s.take(j)[i] == s[i]);
}

/// Two sequences that `p` judges alike index by index count alike.
pub proof fn lemma_count_alike<T>(a: Seq<T>, b: Seq<T>, p: spec_fn(T) -> bool)
    requires
        a.len() == b.len(),
        forall|k: int| 0 <= k < a.len() ==> p(#[trigger] a[k]) == p(b[k]),
    ensures
        count_where(a, p) == count_where(b, p),
    decreases a.len(),
{
    if a.len() > 0 {
        lemma_count_alike(a.drop_last(), b.drop_last(), p);
        assert(p(a[a.len() - 1]) == p(b[a.len() - 1]));
    }
}

/// A count of two or more has two witnesses.
pub proof fn lemma_count_pair<T>(s: Seq<T>, p: spec_fn(T) -> bool) -> (w: (int, int))
    requires
        count_where(s, p) >= 2,
    ensures
        0 <= w.0 < w.1 < s.len(),
        p(s[w.0]),
        p(s[w.1]),
    decreases s.len(),
{
    if p(s.last()) {
        let i = lemma_count_witness(s.drop_last(), p);
        (i, s.len() - 1)
    } else {
        lemma_count_pair(s.drop_last(), p)
    }
}

/// Two sequences of which one predicate judges the first as another judges
/// the second, index by index, count alike.
pub proof fn lemma_count_matched<T>(
    a: Seq<T>,
    p: spec_fn(T) -> bool,
    b: Seq<T>,
    q: spec_fn(T) -> bool,
)
    requires
        a.len() == b.len(),
        forall|k: int| 0 <= k < a.len() ==> p(#[trigger] a[k]) == q(b[k]),
    ensures
        count_where(a, p) == count_where(b, q),
    decreases a.len(),
{
    if a.len() > 0 {
        lemma_count_matched(a.drop_last(), p, b.drop_last(), q);
        assert(p(a[a.len() - 1]) == q(b[a.len() - 1]));
    }
}

} // verus!
