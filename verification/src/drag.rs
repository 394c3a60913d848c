//! The drag state of one board session and the ids that await a push.
use std::collections::HashSet;
use vstd::prelude::*;
use crate::issue::IssueId;

verus! {

/// What is being dragged, what was last dropped on, and which issues changed
/// locally since the last push.
///
/// `dragged_id` is `None` while idle and `Some` between a drag start and the
/// drop or drag end. `last_id` outlives single drags.
#[derive(Debug)]
pub struct IssueDrag {
    pub dragged_id: Option<IssueId>,
    pub last_id: Option<IssueId>,
    pub dirty: HashSet<IssueId>,
}

impl IssueDrag {
    /// An idle state with nothing pending.
    pub fn new() -> (r: IssueDrag)
        ensures
            r.dragged_id is None,
            r.last_id is None,
            r.dirty@ == Set::<IssueId>::empty(),
    {
        IssueDrag { dragged_id: None, last_id: None, dirty: HashSet::new() }
    }

    /// Whether `id` is the dragged issue or the last drop target.
    pub open spec fn is_dragged_or_last(self, id: IssueId) -> bool {
        self.dragged_id == Some(id) || self.last_id == Some(id)
    }

    /// Starts dragging `issue_id`, replacing any earlier drag.
    pub fn drag(&mut self, issue_id: IssueId)
        ensures
            *final(self) == (IssueDrag { dragged_id: Some(issue_id), ..*old(self) }),
    {
        self.dragged_id = Some(issue_id);
    }

    /// Ends the drag. The last drop target and the pending ids stay.
    pub fn release(&mut self)
        ensures
            *final(self) == (IssueDrag { dragged_id: None, ..*old(self) }),
    {
        self.dragged_id = None;
    }

    /// True if `id` is the dragged issue or the last drop target.
    pub fn dragged_or_last(&self, id: IssueId) -> (r: bool)
        ensures
            r == self.is_dragged_or_last(id),
    {
        let dragged = match self.dragged_id {
            Some(d) => d == id,
            None => false,
        };
        let last = match self.last_id {
            Some(l) => l == id,
            None => false,
        };
        dragged || last
    }

    /// Records that `id` has to be pushed upstream.
    pub fn mark_dirty(&mut self, id: IssueId)
        ensures
            final(self).dirty@ == old(self).dirty@.insert(id),
            final(self).dragged_id == old(self).dragged_id,
            final(self).last_id == old(self).last_id,
    {
        broadcast use vstd::std_specs::hash::group_hash_axioms;

        self.dirty.insert(id);
    }

    /// Whether `id` awaits a push.
    pub fn is_dirty(&self, id: IssueId) -> (r: bool)
        ensures
            r == self.dirty@.contains(id),
    {
        broadcast use vstd::std_specs::hash::group_hash_axioms;

        self.dirty.contains(&id)
    }

    /// Forgets every pending id.
    pub fn clear(&mut self)
        ensures
            final(self).dirty@ == Set::<IssueId>::empty(),
            final(self).dragged_id == old(self).dragged_id,
            final(self).last_id == old(self).last_id,
    {
        self.dirty.clear();
    }
}

} // verus!
