//! Stable ordering by position, shared by everything the board shows in order.
use vstd::prelude::*;
use crate::counting::{count_where, lemma_count_insert};

verus! {

/// A record that carries the integer by which its collection is ordered.
pub trait Positioned {
    spec fn position_of(&self) -> int;

    /// Whether this record has the greater position of the two.
    fn stands_behind(&self, other: &Self) -> (behind: bool)
        ensures
            behind == (self.position_of() > other.position_of()),
    ;
}

/// Ascending by position.
pub open spec fn ascending<T: Positioned>(s: Seq<T>) -> bool {
    forall|i: int, j: int| 0 <= i <= j < s.len() ==> s[i].position_of() <= s[j].position_of()
}

/// `x` placed into `s` behind every element whose position is not greater.
pub open spec fn placed<T: Positioned>(s: Seq<T>, x: T) -> Seq<T>
    decreases s.len(),
{
    if s.len() == 0 {
        seq![x]
    } else if s.last().position_of() <= x.position_of() {
        s.push(x)
    } else {
        placed(s.drop_last(), x).push(s.last())
    }
}

/// The stable ascending arrangement of `s`: elements with equal positions keep
/// the order they had in `s`.
pub open spec fn arranged<T: Positioned>(s: Seq<T>) -> Seq<T>
    decreases s.len(),
{
    if s.len() == 0 {
        s
    } else {
        placed(arranged(s.drop_last()), s.last())
    }
}

/// Where `placed` puts the new element.
pub proof fn lemma_placed_at<T: Positioned>(s: Seq<T>, x: T, j: int)
    requires
        0 <= j <= s.len(),
        forall|k: int| j <= k < s.len() ==> s[k].position_of() > x.position_of(),
        j == 0 || s[j - 1].position_of() <= x.position_of(),
    ensures
        placed(s, x) == s.insert(j, x),
    decreases s.len(),
{
    if s.len() == 0 {
        assert(s.insert(j, x) =~= seq![x]);
    } else if j == s.len() {
        assert(s.insert(j, x) =~= s.push(x));
    } else {
        lemma_placed_at(s.drop_last(), x, j);
        assert(s.drop_last().insert(j, x).push(s.last()) =~= s.insert(j, x));
    }
}

/// Some index at which `placed` puts the new element always exists.
pub proof fn lemma_placed_somewhere<T: Positioned>(s: Seq<T>, x: T) -> (j: int)
    ensures
        0 <= j <= s.len(),
        placed(s, x) == s.insert(j, x),
    decreases s.len(),
{
    if s.len() == 0 {
        assert(s.insert(0, x) =~= seq![x]);
        0
    } else if s.last().position_of() <= x.position_of() {
        assert(s.insert(s.len() as int, x) =~= s.push(x));
        s.len() as int
    } else {
        let j = lemma_placed_somewhere(s.drop_last(), x);
        assert(s.drop_last().insert(j, x).push(s.last()) =~= s.insert(j, x));
        j
    }
}

/// Placing an element into an ascending sequence keeps it ascending and makes it
/// one longer.
pub proof fn lemma_placed_ascending<T: Positioned>(s: Seq<T>, x: T)
    requires
        ascending(s),
    ensures
        ascending(placed(s, x)),
        placed(s, x).len() == s.len() + 1,
    decreases s.len(),
{
    if s.len() == 0 {
    } else if s.last().position_of() <= x.position_of() {
    } else {
        let front = s.drop_last();
        lemma_placed_ascending(front, x);
        let j = lemma_placed_somewhere(front, x);
        let t = placed(front, x);
        assert forall|k: int| 0 <= k < t.len() implies #[trigger] t[k].position_of()
            <= s.last().position_of() by {
            if k < j {
                assert(t[k] == front[k]);
            } else if k == j {
            } else {
                assert(t[k] == front[k - 1]);
            }
        }
    }
}

/// Arranging yields an ascending sequence of the same length.
pub proof fn lemma_arranged_ascending<T: Positioned>(s: Seq<T>)
    ensures
        ascending(arranged(s)),
        arranged(s).len() == s.len(),
    decreases s.len(),
{
    if s.len() > 0 {
        lemma_arranged_ascending(s.drop_last());
        lemma_placed_ascending(arranged(s.drop_last()), s.last());
    }
}

/// Arranging moves elements and neither adds nor drops any: every predicate
/// counts the same before and after.
pub proof fn lemma_arranged_count<T: Positioned>(s: Seq<T>, p: spec_fn(T) -> bool)
    ensures
        count_where(arranged(s), p) == count_where(s, p),
    decreases s.len(),
{
    if s.len() > 0 {
        let front = arranged(s.drop_last());
        lemma_arranged_count(s.drop_last(), p);
        let j = lemma_placed_somewhere(front, s.last());
        lemma_count_insert(front, j, s.last(), p);
    }
}

/// The elements that stand at one position.
pub open spec fn standing_at<T: Positioned>(p: int) -> spec_fn(T) -> bool {
    |x: T| x.position_of() == p
}

proof fn lemma_placed_keeps_order<T: Positioned>(t: Seq<T>, x: T, p: int)
    ensures
        placed(t, x).filter(standing_at(p)) == if x.position_of() == p {
            t.filter(standing_at(p)).push(x)
        } else {
            t.filter(standing_at(p))
        },
    decreases t.len(),
{
    let q = standing_at::<T>(p);
    if t.len() == 0 {
        t.lemma_filter_push(x, q);
        assert(t.push(x) =~= seq![x]);
    } else if t.last().position_of() <= x.position_of() {
        t.lemma_filter_push(x, q);
    } else {
        let front = t.drop_last();
        lemma_placed_keeps_order(front, x, p);
        placed(front, x).lemma_filter_push(t.last(), q);
        front.lemma_filter_push(t.last(), q);
        assert(front.push(t.last()) =~= t);
    }
}

/// Arranging is stable: the elements that share a position stand in the
/// order in which they stood before.
pub proof fn arranged_is_stable<T: Positioned>(s: Seq<T>, p: int)
    ensures
        arranged(s).filter(standing_at(p)) == s.filter(standing_at(p)),
    decreases s.len(),
{
    if s.len() > 0 {
        let front = s.drop_last();
        arranged_is_stable(front, p);
        lemma_placed_keeps_order(arranged(front), s.last(), p);
        front.lemma_filter_push(s.last(), standing_at(p));
        assert(front.push(s.last()) =~= s);
    }
}

/// Arranging what is ascending already changes nothing.
pub proof fn ascending_is_arranged<T: Positioned>(s: Seq<T>)
    requires
        ascending(s),
    ensures
        arranged(s) == s,
    decreases s.len(),
{
    if s.len() > 0 {
        let front = s.drop_last();
        ascending_is_arranged(front);
        assert(front.push(s.last()) =~= s);
        if front.len() > 0 {
            assert(front.last() == s[s.len() - 2]);
        }
    }
}

/// Sorts `v` by position, ascending and stable.
pub fn sort_by_position<T: Positioned>(v: &mut Vec<T>)
    ensures
        final(v)@ == arranged(old(v)@),
{
    let ghost start = v@;
    let n = v.len();
    let mut i: usize = 0;
    while i < n
        invariant
            i <= n,
            n == start.len(),
            v@.len() == n,
            v@ == arranged(start.take(i as int)) + start.skip(i as int),
        decreases n - i,
    {
        let ghost done = arranged(start.take(i as int));
        proof {
            lemma_arranged_ascending(start.take(i as int));
        }
        let x = v.remove(i);
        assert(x == start[i as int]);
        assert(v@ =~= done + start.skip(i as int + 1));
        let mut j: usize = i;
        while j > 0 && v[j - 1].stands_behind(&x)
            invariant
                j <= i,
                i < n,
                v@.len() == n - 1,
                done.len() == i,
                v@ == done + start.skip(i as int + 1),
                forall|k: int| j <= k < i ==> done[k].position_of() > x.position_of(),
            decreases j,
        {
            assert(v@[j - 1] == done[j - 1]);
            j -= 1;
        }
        assert(j == 0 || v@[j - 1] == done[j - 1]);
        v.insert(j, x);
        proof {
            lemma_placed_at(done, x, j as int);
            assert(start.take(i as int + 1).drop_last() =~= start.take(i as int));
            assert(v@ =~= done.insert(j as int, x) + start.skip(i as int + 1));
        }
        i += 1;
    }
    assert(start.take(n as int) =~= start);
    assert(v@ =~= arranged(start));
}

} // verus!
