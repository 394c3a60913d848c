//! The board page: what the drag events of the view do to the board, and
//! which issues each column shows.
use vstd::prelude::*;
use crate::issue::{Issue, IssueId, IssueStatus, IssueStatusId, UserId, ids};
use crate::order::{Positioned, arranged, lemma_arranged_ascending, sort_by_position};
use crate::message::WsMsg;
use crate::model::{Model, ModelView};
use crate::ws::issue::{
    Reorder, after_change_status, after_exchange, change_outcome, change_status, drag_started,
    exchange_fits, exchange_outcome, exchange_position, fits_exchange, sync, synced,
};

verus! {

/// A drag event of the board view.
#[derive(Clone, Copy, Debug, PartialEq, Eq)]
pub enum BoardEvent {
    /// The user picked an issue up.
    DragStarted(IssueId),
    /// The dragged issue is held over another issue.
    DropOnIssue(IssueId),
    /// The dragged issue is held over the free zone of a column.
    DropOnColumn(IssueStatusId),
    /// The user let go.
    DragEnded,
}

/// The largest collection whose positions a compaction can number.
pub const MAX_ISSUES: usize = 0x7fff_ffff;

/// What an event did: how a reorder was answered, if one was asked for and
/// could be tried, and the messages that go on the wire.
#[derive(Debug)]
pub struct Handled {
    pub reorder: Option<Reorder>,
    pub wire: Vec<WsMsg>,
}

/// The board after an event.
///
/// A reorder that would push a position or the issue count past what an
/// `i32` holds is not tried. Letting go pushes what is pending and ends the
/// drag.
pub open spec fn after_event(m: ModelView, event: BoardEvent) -> ModelView {
    match event {
        BoardEvent::DragStarted(id) => ModelView { dragged_id: Some(id), ..m },
        BoardEvent::DropOnIssue(target) => if exchange_fits(m, target) {
            after_exchange(m, target)
        } else {
            m
        },
        BoardEvent::DropOnColumn(status) => if m.issues.len() <= MAX_ISSUES {
            after_change_status(m, status)
        } else {
            m
        },
        BoardEvent::DragEnded => ModelView { dragged_id: None, ..synced(m).0 },
    }
}

/// How the reorder of an event was answered.
pub open spec fn event_reorder(m: ModelView, event: BoardEvent) -> Option<Reorder> {
    match event {
        BoardEvent::DropOnIssue(target) => if exchange_fits(m, target) {
            Some(exchange_outcome(m, target))
        } else {
            None
        },
        BoardEvent::DropOnColumn(status) => if m.issues.len() <= MAX_ISSUES {
            Some(change_outcome(m))
        } else {
            None
        },
        _ => None,
    }
}

/// The messages that an event puts on the wire.
pub open spec fn event_wire(m: ModelView, event: BoardEvent) -> Seq<WsMsg> {
    match event {
        BoardEvent::DragEnded => synced(m).1,
        _ => Seq::empty(),
    }
}

/// Applies one drag event to the board.
pub fn update(event: BoardEvent, model: &mut Model) -> (handled: Handled)
    ensures
        final(model)@ == after_event(old(model)@, event),
        handled.reorder == event_reorder(old(model)@, event),
        handled.wire@ == event_wire(old(model)@, event),
{
    match event {
        BoardEvent::DragStarted(id) => {
            drag_started(id, model);
            Handled { reorder: None, wire: Vec::new() }
        },
        BoardEvent::DropOnIssue(target) => {
            if fits_exchange(target, model) {
                let outcome = exchange_position(target, model);
                Handled { reorder: Some(outcome), wire: Vec::new() }
            } else {
                Handled { reorder: None, wire: Vec::new() }
            }
        },
        BoardEvent::DropOnColumn(status) => {
            if model.issues.len() <= MAX_ISSUES {
                let outcome = change_status(status, model);
                Handled { reorder: Some(outcome), wire: Vec::new() }
            } else {
                Handled { reorder: None, wire: Vec::new() }
            }
        },
        BoardEvent::DragEnded => {
            let wire = sync(model);
            model.issue_drag.release();
            Handled { reorder: None, wire }
        },
    }
}

/// The filters of the board page.
#[derive(Debug)]
pub struct BoardFilters {
    /// The users whose issues are shown; everybody's where empty.
    pub active_avatar_filters: Vec<UserId>,
    pub only_my_filter: bool,
    pub recently_updated_filter: bool,
}

/// How many issues the recently-updated filter lets through.
pub const RECENT_LIMIT: usize = 10;

/// Whether `v` holds `x`.
pub fn holds(v: &Vec<i32>, x: i32) -> (r: bool)
    ensures
        r == v@.contains(x),
{
    let mut k: usize = 0;
    while k < v.len()
        invariant
            k <= v@.len(),
            forall|j: int| 0 <= j < k ==> v@[j] != x,
        decreases v@.len() - k,
    {
        if v[k] == x {
            return true;
        }
        k += 1;
    }
    false
}

/// The issue belongs to the column.
pub fn issue_filter_status(issue: &Issue, status: &IssueStatus) -> (r: bool)
    ensures
        r == (issue.issue_status_id == status.id),
{
    issue.issue_status_id == status.id
}

/// Some assignee of the issue is among the users.
pub open spec fn assigned_to_any(issue: Issue, user_ids: Seq<UserId>) -> bool {
    exists|k: int|
        0 <= k < issue.assignee_ids@.len() && user_ids.contains(#[trigger] issue.assignee_ids@[k])
}

/// The issue passes the avatar filter: no user is selected, or its reporter
/// or one of its assignees is.
pub open spec fn passes_avatars(issue: Issue, user_ids: Seq<UserId>) -> bool {
    user_ids.len() == 0 || user_ids.contains(issue.reporter_id) || assigned_to_any(issue, user_ids)
}

/// Whether the issue passes the avatar filter.
pub fn issue_filter_with_avatars(issue: &Issue, user_ids: &Vec<UserId>) -> (r: bool)
    ensures
        r == passes_avatars(*issue, user_ids@),
{
    if user_ids.len() == 0 {
        return true;
    }
    if holds(user_ids, issue.reporter_id) {
        return true;
    }
    let mut k: usize = 0;
    while k < issue.assignee_ids.len()
        invariant
            k <= issue.assignee_ids@.len(),
            forall|j: int| 0 <= j < k ==> !user_ids@.contains(#[trigger] issue.assignee_ids@[j]),
        decreases issue.assignee_ids@.len() - k,
    {
        if holds(user_ids, issue.assignee_ids[k]) {
            return true;
        }
        k += 1;
    }
    false
}

/// The issue passes the only-my filter: the filter is off, or the signed-in
/// user is an assignee. Nobody signed in counts as user 0.
pub open spec fn passes_only_my(issue: Issue, only_my: bool, user: Option<UserId>) -> bool {
    !only_my || issue.assignee_ids@.contains(
        match user {
            Some(id) => id,
            None => 0,
        },
    )
}

/// Whether the issue passes the only-my filter.
pub fn issue_filter_with_only_my(issue: &Issue, only_my: bool, user: Option<UserId>) -> (r: bool)
    ensures
        r == passes_only_my(*issue, only_my, user),
{
    let my_id = match user {
        Some(id) => id,
        None => 0,
    };
    !only_my || holds(&issue.assignee_ids, my_id)
}

/// The issue passes the recently-updated filter: no id is listed, or its own is.
pub open spec fn passes_only_recent(issue: Issue, listed: Seq<IssueId>) -> bool {
    listed.len() == 0 || listed.contains(issue.id)
}

/// Whether the issue passes the recently-updated filter.
pub fn issue_filter_with_only_recent(issue: &Issue, listed: &Vec<IssueId>) -> (r: bool)
    ensures
        r == passes_only_recent(*issue, listed@),
{
    listed.len() == 0 || holds(listed, issue.id)
}

/// An issue's id with the time of its last change.
#[derive(Clone, Copy, Debug)]
pub struct Stamp {
    pub id: IssueId,
    pub updated_at: i64,
}

impl Positioned for Stamp {
    open spec fn position_of(&self) -> int {
        self.updated_at as int
    }

    fn stands_behind(&self, other: &Stamp) -> (behind: bool) {
        self.updated_at > other.updated_at
    }
}

/// The stamps of a collection, in its order.
pub open spec fn stamps(s: Seq<Issue>) -> Seq<Stamp> {
    Seq::new(s.len(), |k: int| Stamp { id: s[k].id, updated_at: s[k].updated_at })
}

/// The ids that the recently-updated filter lists: the collection ordered by
/// time of change, ascending and stable, cut after `RECENT_LIMIT` issues.
pub open spec fn listed_recent(s: Seq<Issue>) -> Seq<IssueId> {
    let v = arranged(stamps(s));
    Seq::new(
        if s.len() > RECENT_LIMIT {
            RECENT_LIMIT as nat
        } else {
            s.len()
        },
        |k: int| v[k].id,
    )
}

/// The ids that the recently-updated filter lists.
pub fn recently_updated(issues: &Vec<Issue>) -> (listed: Vec<IssueId>)
    ensures
        listed@ == listed_recent(issues@),
{
    let mut v: Vec<Stamp> = Vec::new();
    let mut k: usize = 0;
    while k < issues.len()
        invariant
            k <= issues@.len(),
            v@ == stamps(issues@).take(k as int),
        decreases issues@.len() - k,
    {
        v.push(Stamp { id: issues[k].id, updated_at: issues[k].updated_at });
        assert(v@ =~= stamps(issues@).take(k as int + 1));
        k += 1;
    }
    assert(v@ =~= stamps(issues@));
    proof {
        lemma_arranged_ascending(stamps(issues@));
    }
    sort_by_position(&mut v);
    let n = if v.len() > RECENT_LIMIT {
        RECENT_LIMIT
    } else {
        v.len()
    };
    let mut listed: Vec<IssueId> = Vec::new();
    let mut j: usize = 0;
    while j < n
        invariant
            j <= n <= v@.len(),
            listed@.len() == j,
            forall|i: int| 0 <= i < j ==> listed@[i] == v@[i].id,
        decreases n - j,
    {
        listed.push(v[j].id);
        j += 1;
    }
    assert(listed@ =~= listed_recent(issues@));
    listed
}

/// The issues that a column shows under the filters.
pub open spec fn shown(
    status: IssueStatusId,
    avatars: Seq<UserId>,
    only_my: bool,
    user: Option<UserId>,
    listed: Seq<IssueId>,
) -> spec_fn(Issue) -> bool {
    |i: Issue|
        i.issue_status_id == status && passes_avatars(i, avatars) && passes_only_my(
            i,
            only_my,
            user,
        ) && passes_only_recent(i, listed)
}

/// The ids that the recently-updated filter works with: the listed ones where
/// it is on, none where it is off.
pub open spec fn listed_for(s: Seq<Issue>, recently_updated_filter: bool) -> Seq<IssueId> {
    if recently_updated_filter {
        listed_recent(s)
    } else {
        Seq::empty()
    }
}

/// The ids of the issues that the column of `status` shows, top to bottom:
/// the issues of the column that pass every filter, in collection order.
pub fn project_issue_list(
    model: &Model,
    status: &IssueStatus,
    filters: &BoardFilters,
    user: Option<UserId>,
) -> (column: Vec<IssueId>)
    ensures
        column@ == ids(
            model@.issues.filter(
                shown(
                    status.id,
                    filters.active_avatar_filters@,
                    filters.only_my_filter,
                    user,
                    listed_for(model@.issues, filters.recently_updated_filter),
                ),
            ),
        ),
{
    let listed = if filters.recently_updated_filter {
        recently_updated(&model.issues)
    } else {
        Vec::new()
    };
    let ghost s = model@.issues;
    let ghost p = shown(
        status.id,
        filters.active_avatar_filters@,
        filters.only_my_filter,
        user,
        listed_for(s, filters.recently_updated_filter),
    );
    let mut column: Vec<IssueId> = Vec::new();
    let mut k: usize = 0;
    proof {
        reveal(Seq::filter);
        assert(s.take(0).filter(p) =~= Seq::empty());
        assert(column@ =~= ids(s.take(0).filter(p)));
    }
    while k < model.issues.len()
        invariant
            k <= s.len(),
            s == model@.issues,
            listed@ == listed_for(s, filters.recently_updated_filter),
            p == shown(
                status.id,
                filters.active_avatar_filters@,
                filters.only_my_filter,
                user,
                listed_for(s, filters.recently_updated_filter),
            ),
            column@ == ids(s.take(k as int).filter(p)),
        decreases s.len() - k,
    {
        let issue = &model.issues[k];
        proof {
            s.take(k as int).lemma_filter_push(s[k as int], p);
            assert(s.take(k as int + 1) =~= s.take(k as int).push(s[k as int]));
        }
        if issue_filter_status(issue, status) && issue_filter_with_avatars(
            issue,
            &filters.active_avatar_filters,
        ) && issue_filter_with_only_my(issue, filters.only_my_filter, user)
            && issue_filter_with_only_recent(issue, &listed) {
            column.push(issue.id);
            assert(column@ =~= ids(s.take(k as int + 1).filter(p)));
        }
        k += 1;
    }
    assert(s.take(k as int) =~= s);
    column
}

} // verus!
