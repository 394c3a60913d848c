//! Reordering by drag and drop, and pushing the result upstream.
use vstd::prelude::*;
use crate::counting::{count_where, lemma_count_push};
use crate::issue::{
    Issue, IssueId, IssueStatusId, changed_ids, holds_id, in_column, index_of_id,
    lemma_changed_ids_empty, lemma_changed_ids_step, lemma_first_with_id_unique,
    lemma_holds_id_count, position_of_id, with_id,
};
use crate::message::{IssueFieldId, PayloadVariant, WsMsg, position_request, status_request};
use crate::model::{ChannelState, Model, ModelView};
use crate::ws::{Delivery, send_ws_msg, sent};
use crate::order::{arranged, lemma_arranged_ascending, lemma_arranged_count, sort_by_position};

verus! {

/// What a reorder request came to.
#[derive(Clone, Copy, Debug, PartialEq, Eq, Structural)]
pub enum Reorder {
    /// The collection was rewritten.
    Applied,
    /// The target is the dragged issue or the last drop target: nothing to do.
    Repeated,
    /// No drag is in progress.
    NothingDragged,
    /// An issue that the request names is not on the board.
    Missing,
}

/// Every position of the column can still grow by one.
pub open spec fn column_has_room(s: Seq<Issue>, status: IssueStatusId) -> bool {
    forall|k: int|
        0 <= k < s.len() && (#[trigger] s[k]).issue_status_id == status ==> s[k].list_position
            < i32::MAX
}

/// Whether every position of the column can still grow by one.
pub fn check_room(issues: &Vec<Issue>, status: IssueStatusId) -> (r: bool)
    ensures
        r == column_has_room(issues@, status),
{
    let mut k: usize = 0;
    while k < issues.len()
        invariant
            k <= issues@.len(),
            forall|j: int|
                0 <= j < k && (#[trigger] issues@[j]).issue_status_id == status
                    ==> issues@[j].list_position < i32::MAX,
        decreases issues@.len() - k,
    {
        if issues[k].issue_status_id == status && issues[k].list_position == i32::MAX {
            return false;
        }
        k += 1;
    }
    true
}

/// Starts dragging `issue_id`, whatever was dragged before.
pub fn drag_started(issue_id: IssueId, model: &mut Model)
    ensures
        final(model)@ == (ModelView { dragged_id: Some(issue_id), ..old(model)@ }),
{
    model.issue_drag.drag(issue_id);
}

/// How a drag over `target` is answered.
pub open spec fn exchange_outcome(m: ModelView, target: IssueId) -> Reorder {
    if m.dragged_id == Some(target) || m.last_id == Some(target) {
        Reorder::Repeated
    } else if m.dragged_id is None {
        Reorder::NothingDragged
    } else if !holds_id(m.issues, target) || !holds_id(m.issues, m.dragged_id->0) {
        Reorder::Missing
    } else {
        Reorder::Applied
    }
}

/// `c` stands below `below` in its column and has to make room.
pub open spec fn gives_way(c: Issue, below: Issue) -> bool {
    c.issue_status_id == below.issue_status_id && c.list_position > below.list_position
}

/// `c` after the column of `below` made room behind `below`.
pub open spec fn shift_one(c: Issue, below: Issue) -> Issue {
    if gives_way(c, below) {
        Issue { list_position: (c.list_position + 1) as i32, ..c }
    } else {
        c
    }
}

/// Every issue after the column of `below` made room behind `below`.
pub open spec fn shifted(rest: Seq<Issue>, below: Issue) -> Seq<Issue> {
    Seq::new(rest.len(), |k: int| shift_one(rest[k], below))
}

/// `s` without the issues at the two indices.
pub open spec fn without_pair(s: Seq<Issue>, i: int, j: int) -> Seq<Issue> {
    if i < j {
        s.remove(j).remove(i)
    } else {
        s.remove(i).remove(j)
    }
}

/// The dragged issue and the target as they are put back: moved behind the
/// target where the columns differ, swapped where they agree.
pub open spec fn exchanged_pair(dragged: Issue, below: Issue) -> (Issue, Issue) {
    if dragged.issue_status_id != below.issue_status_id {
        (
            below,
            Issue {
                issue_status_id: below.issue_status_id,
                list_position: (below.list_position + 1) as i32,
                ..dragged
            },
        )
    } else {
        (
            Issue { list_position: dragged.list_position, ..below },
            Issue { list_position: below.list_position, ..dragged },
        )
    }
}

/// The others as they are put back: shifted where the columns differ.
pub open spec fn exchanged_rest(rest: Seq<Issue>, dragged: Issue, below: Issue) -> Seq<Issue> {
    if dragged.issue_status_id != below.issue_status_id {
        shifted(rest, below)
    } else {
        rest
    }
}

/// The collection after the dragged issue was exchanged with the target, where
/// both are on the board.
pub open spec fn exchanged(s: Seq<Issue>, dragged_id: IssueId, target: IssueId) -> Seq<Issue> {
    let di = index_of_id(s, dragged_id);
    let bi = index_of_id(s, target);
    let rest = without_pair(s, di, bi);
    let pair = exchanged_pair(s[di], s[bi]);
    arranged(exchanged_rest(rest, s[di], s[bi]).push(pair.0).push(pair.1))
}

/// The pending ids after that exchange: the two issues and every issue that
/// made room.
pub open spec fn exchanged_dirty(
    s: Seq<Issue>,
    dragged_id: IssueId,
    target: IssueId,
    dirty: Set<IssueId>,
) -> Set<IssueId> {
    let di = index_of_id(s, dragged_id);
    let bi = index_of_id(s, target);
    let rest = without_pair(s, di, bi);
    dirty.union(changed_ids(rest, exchanged_rest(rest, s[di], s[bi]))).insert(dragged_id).insert(
        target,
    )
}

/// A drag over `target` stays within the positions an `i32` holds: where the
/// dragged issue enters another column, that column has room.
pub open spec fn exchange_fits(m: ModelView, target: IssueId) -> bool {
    exchange_outcome(m, target) == Reorder::Applied ==> {
        let dragged = m.issues[index_of_id(m.issues, m.dragged_id->0)];
        let below = m.issues[index_of_id(m.issues, target)];
        dragged.issue_status_id != below.issue_status_id ==> column_has_room(
            m.issues,
            below.issue_status_id,
        )
    }
}

/// Whether a drag over `target` stays within the positions an `i32` holds.
pub fn fits_exchange(issue_bellow_id: IssueId, model: &Model) -> (r: bool)
    ensures
        r == exchange_fits(model@, issue_bellow_id),
{
    if model.issue_drag.dragged_or_last(issue_bellow_id) {
        return true;
    }
    let dragged_id = match model.issue_drag.dragged_id {
        Some(id) => id,
        None => {
            return true;
        },
    };
    let bi = match position_of_id(&model.issues, issue_bellow_id) {
        Some(k) => k,
        None => {
            return true;
        },
    };
    let di = match position_of_id(&model.issues, dragged_id) {
        Some(k) => k,
        None => {
            return true;
        },
    };
    proof {
        lemma_first_with_id_unique(model.issues@, issue_bellow_id, bi as int);
        lemma_first_with_id_unique(model.issues@, dragged_id, di as int);
    }
    if model.issues[di].issue_status_id == model.issues[bi].issue_status_id {
        return true;
    }
    check_room(&model.issues, model.issues[bi].issue_status_id)
}

/// The board after a drag over `target`: rewritten where the request applies,
/// untouched where it does not.
pub open spec fn after_exchange(m: ModelView, target: IssueId) -> ModelView {
    if exchange_outcome(m, target) == Reorder::Applied {
        ModelView {
            issues: exchanged(m.issues, m.dragged_id->0, target),
            dirty: exchanged_dirty(m.issues, m.dragged_id->0, target, m.dirty),
            last_id: Some(target),
            ..m
        }
    } else {
        m
    }
}

/// Makes room behind `below` in its column and records who moved.
fn make_room(model: &mut Model, below: &Issue)
    requires
        column_has_room(old(model).issues@, below.issue_status_id),
    ensures
        final(model).issues@ == shifted(old(model).issues@, *below),
        final(model).issue_drag.dirty@ == old(model).issue_drag.dirty@.union(
            changed_ids(old(model).issues@, shifted(old(model).issues@, *below)),
        ),
        final(model).issue_drag.dragged_id == old(model).issue_drag.dragged_id,
        final(model).issue_drag.last_id == old(model).issue_drag.last_id,
        final(model).issue_statuses == old(model).issue_statuses,
        final(model).ws == old(model).ws,
        final(model).ws_queue == old(model).ws_queue,
{
    let ghost rest = model.issues@;
    let ghost goal = shifted(rest, *below);
    let ghost dirty = model.issue_drag.dirty@;
    let n = model.issues.len();
    let mut k: usize = 0;
    proof {
        lemma_changed_ids_empty(rest.take(0), goal.take(0));
        assert(dirty.union(Set::<IssueId>::empty()) =~= dirty);
    }
    while k < n
        invariant
            k <= n,
            n == rest.len(),
            goal == shifted(rest, *below),
            column_has_room(rest, below.issue_status_id),
            model.issues@.len() == n,
            forall|j: int| 0 <= j < k ==> model.issues@[j] == goal[j],
            forall|j: int| k <= j < n ==> model.issues@[j] == rest[j],
            model.issue_drag.dirty@ == dirty.union(
                changed_ids(rest.take(k as int), goal.take(k as int)),
            ),
            model.issue_drag.dragged_id == old(model).issue_drag.dragged_id,
            model.issue_drag.last_id == old(model).issue_drag.last_id,
            model.issue_statuses == old(model).issue_statuses,
            model.ws == old(model).ws,
            model.ws_queue == old(model).ws_queue,
        decreases n - k,
    {
        proof {
            lemma_changed_ids_step(rest, goal, k as int);
        }
        if model.issues[k].issue_status_id == below.issue_status_id && model.issues[k].list_position
            > below.list_position {
            let id = model.issues[k].id;
            model.issues[k].list_position = model.issues[k].list_position + 1;
            model.issue_drag.mark_dirty(id);
            assert(model.issues@[k as int] == goal[k as int]);
            assert(goal[k as int] != rest[k as int]);
            assert(model.issue_drag.dirty@ =~= dirty.union(
                changed_ids(rest.take(k as int + 1), goal.take(k as int + 1)),
            ));
        } else {
            assert(goal[k as int] == rest[k as int]);
        }
        k += 1;
    }
    proof {
        assert(rest.take(n as int) =~= rest);
        assert(goal.take(n as int) =~= goal);
        assert(model.issues@ =~= goal);
    }
}

/// Exchanges the dragged issue with the issue it is dragged over.
///
/// Nothing happens where the target is the dragged issue or the last drop
/// target, where nothing is dragged, or where either issue is not on the
/// board. Otherwise, between columns, the dragged issue enters the target's
/// column right behind the target and the issues below make room; within one
/// column the two swap their positions. The collection is then ordered by
/// position again, both issues and every shifted one are pending, and the
/// target is remembered as the last drop target.
pub fn exchange_position(issue_bellow_id: IssueId, model: &mut Model) -> (outcome: Reorder)
    requires
        exchange_fits(old(model)@, issue_bellow_id),
    ensures
        outcome == exchange_outcome(old(model)@, issue_bellow_id),
        final(model)@ == after_exchange(old(model)@, issue_bellow_id),
{
    if model.issue_drag.dragged_or_last(issue_bellow_id) {
        return Reorder::Repeated;
    }
    let dragged_id = match model.issue_drag.dragged_id {
        Some(id) => id,
        None => {
            return Reorder::NothingDragged;
        },
    };
    let bi = match position_of_id(&model.issues, issue_bellow_id) {
        Some(k) => k,
        None => {
            return Reorder::Missing;
        },
    };
    let di = match position_of_id(&model.issues, dragged_id) {
        Some(k) => k,
        None => {
            return Reorder::Missing;
        },
    };
    let ghost s = model.issues@;
    proof {
        lemma_first_with_id_unique(s, issue_bellow_id, bi as int);
        lemma_first_with_id_unique(s, dragged_id, di as int);
    }
    let mut dragged;
    let mut below;
    if di < bi {
        below = model.issues.remove(bi);
        dragged = model.issues.remove(di);
    } else {
        dragged = model.issues.remove(di);
        below = model.issues.remove(bi);
    }
    let ghost rest = model.issues@;
    assert(rest == without_pair(s, di as int, bi as int));
    assert(dragged == s[di as int] && below == s[bi as int]);
    assert(dragged.issue_status_id != below.issue_status_id ==> column_has_room(
        rest,
        below.issue_status_id,
    )) by {
        assert forall|k: int| 0 <= k < rest.len() implies (#[trigger] rest[k]) == s[if k < di
            && k < bi {
            k
        } else if k + 1 < di || k + 1 < bi {
            k + 1
        } else {
            k + 2
        }] by {}
    }
    let ghost dirty = model.issue_drag.dirty@;
    if dragged.issue_status_id != below.issue_status_id {
        make_room(model, &below);
        dragged.list_position = below.list_position + 1;
        dragged.issue_status_id = below.issue_status_id;
    } else {
        let p = dragged.list_position;
        dragged.list_position = below.list_position;
        below.list_position = p;
        proof {
            assert(changed_ids(rest, rest) =~= Set::<IssueId>::empty());
            assert(dirty.union(Set::<IssueId>::empty()) =~= dirty);
        }
    }
    model.issue_drag.mark_dirty(dragged.id);
    model.issue_drag.mark_dirty(below.id);
    model.issues.push(below);
    model.issues.push(dragged);
    sort_by_position(&mut model.issues);
    model.issue_drag.last_id = Some(issue_bellow_id);
    Reorder::Applied
}

/// The issue at index `k` with its position replaced by the number of issues
/// of the column that stand before it, where it belongs to the column.
pub open spec fn renumbered(q: Seq<Issue>, k: int, status: IssueStatusId) -> Issue {
    if q[k].issue_status_id == status {
        Issue { list_position: count_where(q.take(k), in_column(status)) as i32, ..q[k] }
    } else {
        q[k]
    }
}

/// `q` with the positions of one column rewritten to 0, 1, 2, ... in the order
/// in which its issues stand in `q`.
pub open spec fn compacted(q: Seq<Issue>, status: IssueStatusId) -> Seq<Issue> {
    Seq::new(q.len(), |k: int| renumbered(q, k, status))
}

/// The dragged issue as it is put back after a drop on a column that holds
/// `count` issues: unchanged where it belongs to the column already, else
/// appended to it.
pub open spec fn dropped(found: Issue, status: IssueStatusId, count: nat) -> Issue {
    if found.issue_status_id == status {
        found
    } else {
        Issue { issue_status_id: status, list_position: count as i32, ..found }
    }
}

/// The collection after the dragged issue was dropped on a column.
pub open spec fn status_changed(
    s: Seq<Issue>,
    dragged_id: IssueId,
    status: IssueStatusId,
) -> Seq<Issue> {
    let c = compacted(arranged(s), status);
    if holds_id(c, dragged_id) {
        let k = index_of_id(c, dragged_id);
        c.remove(k).push(dropped(c[k], status, count_where(s, in_column(status))))
    } else {
        c
    }
}

/// The pending ids after that drop: every issue whose position the compaction
/// changed, and the dragged issue where it changed its column.
pub open spec fn status_changed_dirty(
    s: Seq<Issue>,
    dragged_id: IssueId,
    status: IssueStatusId,
    dirty: Set<IssueId>,
) -> Set<IssueId> {
    let q = arranged(s);
    let c = compacted(q, status);
    let d = dirty.union(changed_ids(q, c));
    if holds_id(c, dragged_id) && c[index_of_id(c, dragged_id)].issue_status_id != status {
        d.insert(dragged_id)
    } else {
        d
    }
}

/// Rewrites the positions of one column to 0, 1, 2, ... in collection order,
/// records whose position changed, and returns how many issues the column has.
fn compact_column(model: &mut Model, status_id: IssueStatusId) -> (count: i32)
    requires
        old(model).issues@.len() <= i32::MAX,
    ensures
        final(model).issues@ == compacted(old(model).issues@, status_id),
        count == count_where(old(model).issues@, in_column(status_id)),
        final(model).issue_drag.dirty@ == old(model).issue_drag.dirty@.union(
            changed_ids(old(model).issues@, compacted(old(model).issues@, status_id)),
        ),
        final(model).issue_drag.dragged_id == old(model).issue_drag.dragged_id,
        final(model).issue_drag.last_id == old(model).issue_drag.last_id,
        final(model).issue_statuses == old(model).issue_statuses,
        final(model).ws == old(model).ws,
        final(model).ws_queue == old(model).ws_queue,
{
    let ghost q = model.issues@;
    let ghost goal = compacted(q, status_id);
    let ghost dirty = model.issue_drag.dirty@;
    let n = model.issues.len();
    let mut k: usize = 0;
    let mut pos: i32 = 0;
    proof {
        lemma_changed_ids_empty(q.take(0), goal.take(0));
        assert(dirty.union(Set::<IssueId>::empty()) =~= dirty);
    }
    while k < n
        invariant
            k <= n,
            n == q.len(),
            n <= i32::MAX,
            goal == compacted(q, status_id),
            model.issues@.len() == n,
            0 <= pos <= k,
            pos == count_where(q.take(k as int), in_column(status_id)),
            forall|j: int| 0 <= j < k ==> model.issues@[j] == goal[j],
            forall|j: int| k <= j < n ==> model.issues@[j] == q[j],
            model.issue_drag.dirty@ == dirty.union(
                changed_ids(q.take(k as int), goal.take(k as int)),
            ),
            model.issue_drag.dragged_id == old(model).issue_drag.dragged_id,
            model.issue_drag.last_id == old(model).issue_drag.last_id,
            model.issue_statuses == old(model).issue_statuses,
            model.ws == old(model).ws,
            model.ws_queue == old(model).ws_queue,
        decreases n - k,
    {
        proof {
            lemma_changed_ids_step(q, goal, k as int);
            lemma_count_push(q.take(k as int), q[k as int], in_column(status_id));
            assert(q.take(k as int + 1) =~= q.take(k as int).push(q[k as int]));
        }
        if model.issues[k].issue_status_id == status_id {
            if model.issues[k].list_position != pos {
                let id = model.issues[k].id;
                model.issues[k].list_position = pos;
                model.issue_drag.mark_dirty(id);
                assert(model.issues@[k as int] == goal[k as int]);
                assert(goal[k as int] != q[k as int]);
                assert(model.issue_drag.dirty@ =~= dirty.union(
                    changed_ids(q.take(k as int + 1), goal.take(k as int + 1)),
                ));
            } else {
                assert(goal[k as int] == q[k as int]);
            }
            pos = pos + 1;
        } else {
            assert(goal[k as int] == q[k as int]);
        }
        k += 1;
    }
    proof {
        assert(q.take(n as int) =~= q);
        assert(goal.take(n as int) =~= goal);
        assert(model.issues@ =~= goal);
    }
    pos
}

/// How a drop on a column is answered.
pub open spec fn change_outcome(m: ModelView) -> Reorder {
    if m.dragged_id is None {
        Reorder::NothingDragged
    } else if !holds_id(m.issues, m.dragged_id->0) {
        Reorder::Missing
    } else {
        Reorder::Applied
    }
}

/// The board after a drop on a column: untouched where nothing is dragged.
pub open spec fn after_change_status(m: ModelView, status: IssueStatusId) -> ModelView {
    if m.dragged_id is None {
        m
    } else {
        ModelView {
            issues: status_changed(m.issues, m.dragged_id->0, status),
            dirty: status_changed_dirty(m.issues, m.dragged_id->0, status, m.dirty),
            ..m
        }
    }
}

/// Drops the dragged issue on a column.
///
/// Nothing happens where nothing is dragged. Otherwise the collection is
/// ordered by position and the column's positions are rewritten to
/// 0, 1, 2, ... in that order; an issue whose position changed is pending.
/// The dragged issue, where the board holds it, is moved to the end of the
/// collection: unchanged where it belongs to the column already, else as the
/// column's new last issue, and pending.
pub fn change_status(status_id: IssueStatusId, model: &mut Model) -> (outcome: Reorder)
    requires
        old(model).issues@.len() <= i32::MAX,
    ensures
        outcome == change_outcome(old(model)@),
        final(model)@ == after_change_status(old(model)@, status_id),
{
    let issue_id = match model.issue_drag.dragged_id {
        Some(id) => id,
        None => {
            return Reorder::NothingDragged;
        },
    };
    let ghost s = model.issues@;
    proof {
        lemma_arranged_ascending(s);
        lemma_arranged_count(s, in_column(status_id));
        lemma_arranged_holds_id(s, issue_id);
    }
    sort_by_position(&mut model.issues);
    let count = compact_column(model, status_id);
    let ghost c = model.issues@;
    proof {
        lemma_compacted_holds_id(arranged(s), status_id, issue_id);
    }
    match position_of_id(&model.issues, issue_id) {
        None => Reorder::Missing,
        Some(k) => {
            proof {
                lemma_first_with_id_unique(c, issue_id, k as int);
            }
            let mut issue = model.issues.remove(k);
            if issue.issue_status_id != status_id {
                issue.issue_status_id = status_id;
                issue.list_position = count;
                model.issue_drag.mark_dirty(issue_id);
            }
            model.issues.push(issue);
            Reorder::Applied
        },
    }
}

/// Arranging keeps the ids.
pub proof fn lemma_arranged_holds_id(s: Seq<Issue>, id: IssueId)
    ensures
        holds_id(arranged(s), id) == holds_id(s, id),
{
    lemma_arranged_count(s, with_id(id));
    lemma_holds_id_count(s, id);
    lemma_holds_id_count(arranged(s), id);
}

/// Compacting keeps the ids, index by index.
pub proof fn lemma_compacted_holds_id(q: Seq<Issue>, status: IssueStatusId, id: IssueId)
    ensures
        holds_id(compacted(q, status), id) == holds_id(q, id),
{
    let c = compacted(q, status);
    if holds_id(q, id) {
        let k = choose|k: int| 0 <= k < q.len() && (#[trigger] q[k]).id == id;
        assert(c[k].id == id);
    }
    if holds_id(c, id) {
        let k = choose|k: int| 0 <= k < c.len() && (#[trigger] c[k]).id == id;
        assert(q[k].id == id);
    }
}

/// The update requests for the pending issues, in collection order: for each
/// one its column, then its position.
pub open spec fn update_requests(s: Seq<Issue>, dirty: Set<IssueId>) -> Seq<WsMsg>
    decreases s.len(),
{
    if s.len() == 0 {
        Seq::empty()
    } else if dirty.contains(s.last().id) {
        update_requests(s.drop_last(), dirty).push(status_request(s.last())).push(
            position_request(s.last()),
        )
    } else {
        update_requests(s.drop_last(), dirty)
    }
}

/// The board and the wire after a push: the requests are sent, on the wire
/// through an open channel and into the queue otherwise, and nothing is pending.
pub open spec fn synced(m: ModelView) -> (ModelView, Seq<WsMsg>) {
    let (queue, wire) = sent(m.ws, m.ws_queue, update_requests(m.issues, m.dirty));
    (ModelView { dirty: Set::empty(), ws_queue: queue, ..m }, wire)
}

/// Pushes every pending issue upstream and forgets what was pending.
///
/// No answer is awaited: the set is empty once the requests are sent or
/// queued.
pub fn sync(model: &mut Model) -> (wire: Vec<WsMsg>)
    ensures
        (final(model)@, wire@) == synced(old(model)@),
{
    let ghost m = model@;
    let mut wire: Vec<WsMsg> = Vec::new();
    let n = model.issues.len();
    let mut k: usize = 0;
    while k < n
        invariant
            k <= n,
            n == m.issues.len(),
            model@ == (ModelView { ws_queue: model@.ws_queue, ..m }),
            (model@.ws_queue, wire@) == sent(
                m.ws,
                m.ws_queue,
                update_requests(m.issues.take(k as int), m.dirty),
            ),
        decreases n - k,
    {
        let ghost before = m.issues.take(k as int);
        let ghost issue = m.issues[k as int];
        proof {
            assert(m.issues.take(k as int + 1).drop_last() =~= before);
        }
        if model.issue_drag.is_dirty(model.issues[k].id) {
            let id = model.issues[k].id;
            let status = WsMsg::IssueUpdateRequest {
                id,
                field_id: IssueFieldId::IssueStatusId,
                value: PayloadVariant::I32(model.issues[k].issue_status_id),
            };
            let position = WsMsg::IssueUpdateRequest {
                id,
                field_id: IssueFieldId::ListPosition,
                value: PayloadVariant::I32(model.issues[k].list_position),
            };
            assert(status == status_request(issue) && position == position_request(issue));
            match send_ws_msg(status, model.ws, &mut model.ws_queue) {
                Delivery::Transmit(msg) => {
                    wire.push(msg);
                },
                Delivery::Bounced => {},
            }
            match send_ws_msg(position, model.ws, &mut model.ws_queue) {
                Delivery::Transmit(msg) => {
                    wire.push(msg);
                },
                Delivery::Bounced => {},
            }
            proof {
                let front = update_requests(before, m.dirty);
                let all = front.push(status_request(issue)).push(position_request(issue));
                if m.ws != ChannelState::Open {
                    assert(model@.ws_queue =~= m.ws_queue + all);
                }
            }
        }
        k += 1;
    }
    assert(m.issues.take(n as int) =~= m.issues);
    model.issue_drag.clear();
    wire
}

} // verus!
