//! The records of the board: issues and the status columns that hold them.
use vstd::prelude::*;
use crate::counting::{count_where, lemma_count_split, lemma_count_witness};
use crate::order::Positioned;

verus! {

/// Identifies an issue. Unique on a board and never reused.
pub type IssueId = i32;

/// Identifies a status column.
pub type IssueStatusId = i32;

/// Identifies a user.
pub type UserId = i32;

/// A work item. `issue_status_id` names the one column it belongs to and
/// `list_position` orders it within that column.
#[derive(Clone, Debug, PartialEq, Eq)]
pub struct Issue {
    pub id: IssueId,
    pub issue_status_id: IssueStatusId,
    pub list_position: i32,
    pub reporter_id: UserId,
    pub assignee_ids: Vec<UserId>,
    /// Seconds since the epoch of the last change known to the server.
    pub updated_at: i64,
}

/// A status column. Columns are shown ascending by `position`.
#[derive(Clone, Debug, PartialEq, Eq)]
pub struct IssueStatus {
    pub id: IssueStatusId,
    pub name: String,
    pub position: i32,
}

impl Positioned for Issue {
    open spec fn position_of(&self) -> int {
        self.list_position as int
    }

    fn stands_behind(&self, other: &Issue) -> (behind: bool) {
        self.list_position > other.list_position
    }
}

impl Positioned for IssueStatus {
    open spec fn position_of(&self) -> int {
        self.position as int
    }

    fn stands_behind(&self, other: &IssueStatus) -> (behind: bool) {
        self.position > other.position
    }
}

/// The ids of a collection, in its order.
pub open spec fn ids(s: Seq<Issue>) -> Seq<IssueId> {
    s.map_values(|i: Issue| i.id)
}

/// The issues with the given id.
pub open spec fn with_id(id: IssueId) -> spec_fn(Issue) -> bool {
    |i: Issue| i.id == id
}

/// The issues of one column.
pub open spec fn in_column(status: IssueStatusId) -> spec_fn(Issue) -> bool {
    |i: Issue| i.issue_status_id == status
}

/// The issues that sit at one position of one column.
pub open spec fn at_slot(status: IssueStatusId, position: i32) -> spec_fn(Issue) -> bool {
    |i: Issue| i.issue_status_id == status && i.list_position == position
}

/// Some issue of `s` has the id.
pub open spec fn holds_id(s: Seq<Issue>, id: IssueId) -> bool {
    exists|k: int| 0 <= k < s.len() && (#[trigger] s[k]).id == id
}

/// `k` is the first index of `s` at which the id stands.
pub open spec fn first_with_id(s: Seq<Issue>, id: IssueId, k: int) -> bool {
    &&& 0 <= k < s.len()
    &&& s[k].id == id
    &&& forall|j: int| 0 <= j < k ==> (#[trigger] s[j]).id != id
}

/// The first index of `s` at which the id stands, where `holds_id(s, id)`.
pub open spec fn index_of_id(s: Seq<Issue>, id: IssueId) -> int {
    choose|k: int| first_with_id(s, id, k)
}

/// The first index with an id is unique, so finding one finds `index_of_id`.
pub proof fn lemma_first_with_id_unique(s: Seq<Issue>, id: IssueId, k: int)
    requires
        first_with_id(s, id, k),
    ensures
        index_of_id(s, id) == k,
        holds_id(s, id),
{
    let c = index_of_id(s, id);
    assert(first_with_id(s, id, c));
    if c < k {
        assert(s[c].id != id);
    } else if k < c {
        assert(s[k].id != id);
    }
}

/// An id that the collection holds has a first index.
pub proof fn lemma_holds_id_first(s: Seq<Issue>, id: IssueId)
    requires
        holds_id(s, id),
    ensures
        first_with_id(s, id, index_of_id(s, id)),
{
    let w = choose|k: int| 0 <= k < s.len() && (#[trigger] s[k]).id == id;
    lemma_first_upto(s, id, w);
}

proof fn lemma_first_upto(s: Seq<Issue>, id: IssueId, w: int)
    requires
        0 <= w < s.len(),
        s[w].id == id,
    ensures
        exists|k: int| first_with_id(s, id, k),
    decreases w,
{
    if exists|j: int| 0 <= j < w && (#[trigger] s[j]).id == id {
        let j = choose|j: int| 0 <= j < w && (#[trigger] s[j]).id == id;
        lemma_first_upto(s, id, j);
    } else {
        assert(first_with_id(s, id, w));
    }
}

/// The ids that changed their record between two collections of equal length,
/// index by index.
pub open spec fn changed_ids(before: Seq<Issue>, after: Seq<Issue>) -> Set<IssueId> {
    Set::new(
        |id: IssueId|
            exists|k: int|
                0 <= k < before.len() && k < after.len() && (#[trigger] before[k]).id == id
                    && after[k] != before[k],
    )
}

/// Nothing changed in an empty collection.
pub proof fn lemma_changed_ids_empty(before: Seq<Issue>, after: Seq<Issue>)
    requires
        before.len() == 0,
    ensures
        changed_ids(before, after) == Set::<IssueId>::empty(),
{
    assert(changed_ids(before, after) =~= Set::<IssueId>::empty());
}

/// One more index adds its id exactly when the record there changed.
pub proof fn lemma_changed_ids_step(before: Seq<Issue>, after: Seq<Issue>, k: int)
    requires
        0 <= k < before.len(),
        k < after.len(),
    ensures
        changed_ids(before.take(k + 1), after.take(k + 1)) == if after[k] != before[k] {
            changed_ids(before.take(k), after.take(k)).insert(before[k].id)
        } else {
            changed_ids(before.take(k), after.take(k))
        },
{
    let b0 = before.take(k);
    let a0 = after.take(k);
    let b1 = before.take(k + 1);
    let a1 = after.take(k + 1);
    let small = changed_ids(b0, a0);
    let large = changed_ids(b1, a1);
    let want = if after[k] != before[k] {
        small.insert(before[k].id)
    } else {
        small
    };
    assert forall|id: IssueId| large.contains(id) implies want.contains(id) by {
        let w = choose|w: int|
            0 <= w < b1.len() && w < a1.len() && (#[trigger] b1[w]).id == id && a1[w] != b1[w];
        if w < k {
            assert(b0[w].id == id && a0[w] != b0[w]);
        }
    }
    assert forall|id: IssueId| want.contains(id) implies large.contains(id) by {
        if small.contains(id) {
            let w = choose|w: int|
                0 <= w < b0.len() && w < a0.len() && (#[trigger] b0[w]).id == id && a0[w]
                    != b0[w];
            assert(b1[w].id == id && a1[w] != b1[w]);
        } else {
            assert(b1[k].id == id && a1[k] != b1[k]);
        }
    }
    assert(large =~= want);
}

/// The collection holds an id exactly when it counts it at least once.
pub proof fn lemma_holds_id_count(s: Seq<Issue>, id: IssueId)
    ensures
        holds_id(s, id) == (count_where(s, with_id(id)) > 0),
{
    if holds_id(s, id) {
        let k = choose|k: int| 0 <= k < s.len() && (#[trigger] s[k]).id == id;
        lemma_count_split(s, k, with_id(id));
    }
    if count_where(s, with_id(id)) > 0 {
        let k = lemma_count_witness(s, with_id(id));
        assert(s[k].id == id);
    }
}

/// The index of the first issue with the id, if any.
pub fn position_of_id(issues: &Vec<Issue>, id: IssueId) -> (r: Option<usize>)
    ensures
        match r {
            Some(k) => first_with_id(issues@, id, k as int),
            None => !holds_id(issues@, id),
        },
{
    let mut k: usize = 0;
    while k < issues.len()
        invariant
            k <= issues@.len(),
            forall|j: int| 0 <= j < k ==> (#[trigger] issues@[j]).id != id,
        decreases issues@.len() - k,
    {
        if issues[k].id == id {
            return Some(k);
        }
        k += 1;
    }
    None
}

} // verus!
