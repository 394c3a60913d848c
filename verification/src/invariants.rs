//! What reordering keeps true of the board, proved over the functions that
//! the operations' contracts are stated with.
use vstd::prelude::*;
use vstd::multiset::Multiset;
use crate::counting::{
    count_where, lemma_count_alike, lemma_count_bounded, lemma_count_matched, lemma_count_pair,
    lemma_count_push, lemma_count_remove, lemma_count_split, lemma_count_two,
    lemma_count_witness,
};
use crate::issue::{
    Issue, IssueId, IssueStatusId, at_slot, changed_ids, holds_id, ids, in_column, index_of_id,
    lemma_holds_id_first, with_id,
};
use crate::message::WsMsg;
use crate::model::{ChannelState, ModelView};
use crate::order::{arranged, ascending, lemma_arranged_ascending, lemma_arranged_count};
use crate::project::{BoardEvent, after_event, event_wire};
use crate::ws::issue::{
    Reorder, after_change_status, after_exchange, compacted, dropped, exchange_fits,
    exchange_outcome, exchanged, exchanged_pair, exchanged_rest, renumbered, shift_one,
    status_changed, synced, update_requests, without_pair,
};
use crate::ws::{flushed, other_status, received, replaced, sent};

verus! {

/// The ids of a collection, each as often as it occurs.
pub open spec fn id_bag(s: Seq<Issue>) -> Multiset<IssueId> {
    ids(s).to_multiset()
}

/// No two issues of the column share a position.
pub open spec fn column_settled(s: Seq<Issue>, column: IssueStatusId) -> bool {
    forall|i: int, j: int|
        0 <= i < j < s.len() && s[i].issue_status_id == column && s[j].issue_status_id == column
            ==> s[i].list_position != s[j].list_position
}

/// The bag of ids holds an id as often as issues carry it.
pub proof fn lemma_id_bag_count(s: Seq<Issue>, id: IssueId)
    ensures
        id_bag(s).count(id) == count_where(s, with_id(id)),
    decreases s.len(),
{
    broadcast use vstd::multiset::group_multiset_axioms;

    if s.len() == 0 {
        ids(s).to_multiset_ensures();
        assert(id_bag(s).len() == 0);
    } else {
        let front = s.drop_last();
        lemma_id_bag_count(front, id);
        assert(ids(s) =~= ids(front).push(s.last().id));
        ids(front).to_multiset_ensures();
    }
}

/// Collections that count every id alike have the same bag of ids.
pub proof fn lemma_id_bag_equal(a: Seq<Issue>, b: Seq<Issue>)
    requires
        forall|id: IssueId| count_where(a, with_id(id)) == count_where(b, with_id(id)),
    ensures
        id_bag(a) == id_bag(b),
{
    assert forall|id: IssueId| id_bag(a).count(id) == id_bag(b).count(id) by {
        lemma_id_bag_count(a, id);
        lemma_id_bag_count(b, id);
    }
    assert(id_bag(a) =~= id_bag(b));
}

/// A column is settled exactly when each of its positions is taken at most once.
pub proof fn lemma_settled_slots(s: Seq<Issue>, column: IssueStatusId)
    ensures
        column_settled(s, column) <==> forall|p: i32|
            #[trigger] count_where(s, at_slot(column, p)) <= 1,
{
    if column_settled(s, column) {
        assert forall|p: i32| #[trigger] count_where(s, at_slot(column, p)) <= 1 by {
            if count_where(s, at_slot(column, p)) >= 2 {
                let w = lemma_count_pair(s, at_slot(column, p));
                assert(s[w.0].list_position == s[w.1].list_position);
            }
        }
    }
    if forall|p: i32| #[trigger] count_where(s, at_slot(column, p)) <= 1 {
        assert forall|i: int, j: int|
            0 <= i < j < s.len() && s[i].issue_status_id == column && s[j].issue_status_id
                == column implies s[i].list_position != s[j].list_position by {
            if s[i].list_position == s[j].list_position {
                lemma_count_two(s, i, j, at_slot(column, s[i].list_position));
                assert(count_where(s, at_slot(column, s[i].list_position)) <= 1);
            }
        }
    }
}

/// An exchange counts every id as the collection did before.
proof fn lemma_exchanged_count(s: Seq<Issue>, dragged_id: IssueId, target: IssueId, id: IssueId)
    requires
        holds_id(s, dragged_id),
        holds_id(s, target),
        dragged_id != target,
    ensures
        count_where(exchanged(s, dragged_id, target), with_id(id)) == count_where(s, with_id(id)),
{
    let p = with_id(id);
    let di = index_of_id(s, dragged_id);
    let bi = index_of_id(s, target);
    lemma_holds_id_first(s, dragged_id);
    lemma_holds_id_first(s, target);
    let rest = without_pair(s, di, bi);
    let pair = exchanged_pair(s[di], s[bi]);
    let others = exchanged_rest(rest, s[di], s[bi]);
    if di < bi {
        lemma_count_remove(s, bi, p);
        assert(s.remove(bi)[di] == s[di]);
        lemma_count_remove(s.remove(bi), di, p);
    } else {
        lemma_count_remove(s, di, p);
        assert(s.remove(di)[bi] == s[bi]);
        lemma_count_remove(s.remove(di), bi, p);
    }
    lemma_count_alike(others, rest, p);
    lemma_count_push(others, pair.0, p);
    lemma_count_push(others.push(pair.0), pair.1, p);
    lemma_arranged_count(others.push(pair.0).push(pair.1), p);
}

/// A drop on a column counts every id as the collection did before.
proof fn lemma_status_changed_count(
    s: Seq<Issue>,
    dragged_id: IssueId,
    status: IssueStatusId,
    id: IssueId,
)
    ensures
        count_where(status_changed(s, dragged_id, status), with_id(id)) == count_where(
            s,
            with_id(id),
        ),
{
    let p = with_id(id);
    let q = arranged(s);
    let c = compacted(q, status);
    lemma_arranged_count(s, p);
    lemma_count_alike(c, q, p);
    if holds_id(c, dragged_id) {
        lemma_holds_id_first(c, dragged_id);
        let k = index_of_id(c, dragged_id);
        let put = dropped(c[k], status, count_where(s, in_column(status)));
        lemma_count_remove(c, k, p);
        lemma_count_push(c.remove(k), put, p);
    }
}

/// A drag over an issue neither adds nor drops an issue: the collection keeps
/// its length and its bag of ids.
pub proof fn exchange_conserves(m: ModelView, target: IssueId)
    ensures
        after_exchange(m, target).issues.len() == m.issues.len(),
        id_bag(after_exchange(m, target).issues) == id_bag(m.issues),
{
    let r = after_exchange(m, target).issues;
    if exchange_outcome(m, target) == Reorder::Applied {
        assert forall|id: IssueId|
            count_where(r, with_id(id)) == count_where(m.issues, with_id(id)) by {
            lemma_exchanged_count(m.issues, m.dragged_id->0, target, id);
        }
        lemma_id_bag_equal(r, m.issues);
        ids(r).to_multiset_ensures();
        ids(m.issues).to_multiset_ensures();
    }
}

/// A drop on a column neither adds nor drops an issue: the collection keeps
/// its length and its bag of ids.
pub proof fn change_status_conserves(m: ModelView, status: IssueStatusId)
    ensures
        after_change_status(m, status).issues.len() == m.issues.len(),
        id_bag(after_change_status(m, status).issues) == id_bag(m.issues),
{
    let r = after_change_status(m, status).issues;
    if m.dragged_id is Some {
        assert forall|id: IssueId|
            count_where(r, with_id(id)) == count_where(m.issues, with_id(id)) by {
            lemma_status_changed_count(m.issues, m.dragged_id->0, status, id);
        }
        lemma_id_bag_equal(r, m.issues);
        ids(r).to_multiset_ensures();
        ids(m.issues).to_multiset_ensures();
    }
}

/// A drag over the last drop target changes nothing, so a second drag over
/// the same target leaves the board as the first one left it.
pub proof fn exchange_repeated_is_idle(m: ModelView, target: IssueId)
    ensures
        m.last_id == Some(target) || m.dragged_id == Some(target) ==> after_exchange(m, target)
            == m,
        after_exchange(after_exchange(m, target), target) == after_exchange(m, target),
{
}

/// Compacting keeps the size of the column and takes each position below
/// that size once, no other.
proof fn lemma_compacted_slots(q: Seq<Issue>, status: IssueStatusId, p: i32)
    requires
        q.len() <= i32::MAX,
    ensures
        count_where(compacted(q, status), in_column(status)) == count_where(
            q,
            in_column(status),
        ),
        count_where(compacted(q, status), at_slot(status, p)) == if 0 <= p < count_where(
            q,
            in_column(status),
        ) {
            1nat
        } else {
            0nat
        },
    decreases q.len(),
{
    let c = compacted(q, status);
    lemma_count_alike(c, q, in_column(status));
    if q.len() > 0 {
        let front = q.drop_last();
        lemma_compacted_slots(front, status, p);
        assert(c.drop_last() =~= compacted(front, status)) by {
            assert forall|k: int| 0 <= k < front.len() implies c[k] == renumbered(
                front,
                k,
                status,
            ) by {
                assert(q.take(k) =~= front.take(k));
            }
        }
        assert(q.take(q.len() - 1) =~= front);
        assert(c.last() == renumbered(q, q.len() - 1, status));
        lemma_count_bounded(front, in_column(status));
    }
}

/// After a drop on a column, the column's positions are 0, 1, 2, ... without
/// a gap: each position below the column's size is taken once, no other is
/// taken.
pub proof fn change_status_compacts(m: ModelView, status: IssueStatusId, p: i32)
    requires
        m.dragged_id is Some,
        m.issues.len() <= i32::MAX,
    ensures
        count_where(after_change_status(m, status).issues, at_slot(status, p)) == if 0 <= p
            < count_where(after_change_status(m, status).issues, in_column(status)) {
            1nat
        } else {
            0nat
        },
{
    let s = m.issues;
    let dragged_id = m.dragged_id->0;
    let q = arranged(s);
    let c = compacted(q, status);
    let slot = at_slot(status, p);
    let column = in_column(status);
    lemma_arranged_ascending(s);
    lemma_arranged_count(s, column);
    lemma_compacted_slots(q, status, p);
    lemma_count_bounded(q, column);
    if holds_id(c, dragged_id) {
        lemma_holds_id_first(c, dragged_id);
        let k = index_of_id(c, dragged_id);
        let put = dropped(c[k], status, count_where(s, column));
        lemma_count_remove(c, k, slot);
        lemma_count_push(c.remove(k), put, slot);
        lemma_count_remove(c, k, column);
        lemma_count_push(c.remove(k), put, column);
    }
}

/// A drop on a column never fills a position of another column.
pub proof fn change_status_spares_others(
    m: ModelView,
    status: IssueStatusId,
    column: IssueStatusId,
    p: i32,
)
    requires
        column != status,
    ensures
        count_where(after_change_status(m, status).issues, at_slot(column, p)) <= count_where(
            m.issues,
            at_slot(column, p),
        ),
{
    if m.dragged_id is Some {
        let s = m.issues;
        let dragged_id = m.dragged_id->0;
        let q = arranged(s);
        let c = compacted(q, status);
        let slot = at_slot(column, p);
        lemma_arranged_count(s, slot);
        lemma_count_alike(c, q, slot);
        if holds_id(c, dragged_id) {
            lemma_holds_id_first(c, dragged_id);
            let k = index_of_id(c, dragged_id);
            let put = dropped(c[k], status, count_where(s, in_column(status)));
            lemma_count_remove(c, k, slot);
            lemma_count_push(c.remove(k), put, slot);
        }
    }
}

/// Once a drop on a column has settled, no two issues of that column share a
/// position; and a column that was settled before any drop is settled after it.
pub proof fn change_status_settles(m: ModelView, status: IssueStatusId, column: IssueStatusId)
    requires
        m.issues.len() <= i32::MAX,
        (m.dragged_id is Some && column == status) || column_settled(m.issues, column),
    ensures
        column_settled(after_change_status(m, status).issues, column),
{
    let r = after_change_status(m, status).issues;
    if m.dragged_id is Some {
        assert forall|p: i32| #[trigger] count_where(r, at_slot(column, p)) <= 1 by {
            if column == status {
                change_status_compacts(m, status, p);
            } else {
                lemma_settled_slots(m.issues, column);
                assert(count_where(m.issues, at_slot(column, p)) <= 1);
                change_status_spares_others(m, status, column, p);
            }
        }
        lemma_settled_slots(r, column);
    }
}

/// Messages sent while the channel is not open wait in the queue and none
/// goes on the wire; once the channel is open, one flush puts them on the wire
/// in the order in which they were sent, behind what waited before, and a
/// second flush finds nothing left.
pub proof fn queued_messages_flush_once(m: ModelView, msgs: Seq<WsMsg>)
    requires
        m.ws != ChannelState::Open,
    ensures
        ({
            let (queue, wire) = sent(m.ws, m.ws_queue, msgs);
            let open = ModelView { ws: ChannelState::Open, ws_queue: queue, ..m };
            let (after, out) = flushed(open);
            &&& wire == Seq::<WsMsg>::empty()
            &&& queue == m.ws_queue + msgs
            &&& out == m.ws_queue + msgs
            &&& after.ws_queue == Seq::<WsMsg>::empty()
            &&& flushed(after).1 == Seq::<WsMsg>::empty()
        }),
{
}

/// A full set of issues from the server replaces the local one: what the
/// board shows afterwards depends on the message alone, not on what was
/// reordered, pending or dragged before.
pub proof fn replacement_overwrites(a: ModelView, b: ModelView, loaded: Vec<Issue>)
    ensures
        received(a, WsMsg::IssuesLoaded(loaded)).issues == arranged(loaded@),
        received(a, WsMsg::IssuesLoaded(loaded)).issues == received(
            b,
            WsMsg::IssuesLoaded(loaded),
        ).issues,
        received(a, WsMsg::IssuesLoaded(loaded)).dirty == a.dirty,
{
}

/// How often a position of a column is taken after an exchange, counted from
/// the parts that the exchange puts together.
proof fn lemma_exchanged_slot(
    s: Seq<Issue>,
    dragged_id: IssueId,
    target: IssueId,
    column: IssueStatusId,
    p: i32,
)
    requires
        holds_id(s, dragged_id),
        holds_id(s, target),
        dragged_id != target,
    ensures
        ({
            let di = index_of_id(s, dragged_id);
            let bi = index_of_id(s, target);
            let rest = without_pair(s, di, bi);
            let pair = exchanged_pair(s[di], s[bi]);
            let others = exchanged_rest(rest, s[di], s[bi]);
            let slot = at_slot(column, p);
            &&& 0 <= di < s.len() && 0 <= bi < s.len() && di != bi
            &&& count_where(exchanged(s, dragged_id, target), slot) == count_where(others, slot)
                + (if slot(pair.0) {
                1nat
            } else {
                0nat
            }) + (if slot(pair.1) {
                1nat
            } else {
                0nat
            })
            &&& count_where(s, slot) == count_where(rest, slot) + (if slot(s[bi]) {
                1nat
            } else {
                0nat
            }) + (if slot(s[di]) {
                1nat
            } else {
                0nat
            })
            &&& forall|k: int| 0 <= k < rest.len() ==> exists|j: int| 0 <= j < s.len() && s[j] == #[trigger] rest[k]
        }),
{
    let slot = at_slot(column, p);
    let di = index_of_id(s, dragged_id);
    let bi = index_of_id(s, target);
    lemma_holds_id_first(s, dragged_id);
    lemma_holds_id_first(s, target);
    let rest = without_pair(s, di, bi);
    let pair = exchanged_pair(s[di], s[bi]);
    let others = exchanged_rest(rest, s[di], s[bi]);
    if di < bi {
        lemma_count_remove(s, bi, slot);
        assert(s.remove(bi)[di] == s[di]);
        lemma_count_remove(s.remove(bi), di, slot);
    } else {
        lemma_count_remove(s, di, slot);
        assert(s.remove(di)[bi] == s[bi]);
        lemma_count_remove(s.remove(di), bi, slot);
    }
    lemma_count_push(others, pair.0, slot);
    lemma_count_push(others.push(pair.0), pair.1, slot);
    lemma_arranged_count(others.push(pair.0).push(pair.1), slot);
    assert forall|k: int| 0 <= k < rest.len() implies exists|j: int|
        0 <= j < s.len() && s[j] == #[trigger] rest[k] by {
        let j = if k < di && k < bi {
            k
        } else if k + 1 < di || k + 1 < bi {
            k + 1
        } else {
            k + 2
        };
        assert(s[j] == rest[k]);
    }
}

/// A drag over an issue keeps a settled column settled: where no two issues
/// of the column shared a position before, none do after.
pub proof fn exchange_settles(m: ModelView, target: IssueId, column: IssueStatusId)
    requires
        exchange_fits(m, target),
        column_settled(m.issues, column),
    ensures
        column_settled(after_exchange(m, target).issues, column),
{
    if exchange_outcome(m, target) == Reorder::Applied {
        let s = m.issues;
        let dragged_id = m.dragged_id->0;
        let r = exchanged(s, dragged_id, target);
        let di = index_of_id(s, dragged_id);
        let bi = index_of_id(s, target);
        let dragged = s[di];
        let below = s[bi];
        let rest = without_pair(s, di, bi);
        let others = exchanged_rest(rest, dragged, below);
        lemma_settled_slots(s, column);
        assert forall|p: i32| #[trigger] count_where(r, at_slot(column, p)) <= 1 by {
            let slot = at_slot(column, p);
            lemma_exchanged_slot(s, dragged_id, target, column, p);
            assert(count_where(s, slot) <= 1);
            if dragged.issue_status_id == below.issue_status_id {
            } else if column != below.issue_status_id {
                lemma_count_alike(others, rest, slot);
            } else {
                assert forall|k: int|
                    0 <= k < rest.len() && (#[trigger] rest[k]).issue_status_id
                        == column implies rest[k].list_position < i32::MAX by {
                    let j = choose|j: int| 0 <= j < s.len() && s[j] == rest[k];
                    assert(s[j].list_position < i32::MAX);
                }
                if p <= below.list_position {
                    lemma_count_alike(others, rest, slot);
                } else if p == below.list_position + 1 {
                    assert forall|k: int| 0 <= k < others.len() implies !slot(
                        #[trigger] others[k],
                    ) by {
                        assert(others[k] == shift_one(rest[k], below));
                    }
                    lemma_count_none(others, slot);
                } else {
                    let before = at_slot(column, (p - 1) as i32);
                    lemma_exchanged_slot(s, dragged_id, target, column, (p - 1) as i32);
                    assert(count_where(s, before) <= 1);
                    assert forall|k: int| 0 <= k < others.len() implies slot(
                        #[trigger] others[k],
                    ) == before(rest[k]) by {
                        assert(others[k] == shift_one(rest[k], below));
                    }
                    lemma_count_matched(others, slot, rest, before);
                }
            }
        }
        lemma_settled_slots(r, column);
    }
}

/// Nothing is counted where nothing satisfies the predicate.
proof fn lemma_count_none(s: Seq<Issue>, p: spec_fn(Issue) -> bool)
    requires
        forall|k: int| 0 <= k < s.len() ==> !p(#[trigger] s[k]),
    ensures
        count_where(s, p) == 0,
    decreases s.len(),
{
    if s.len() > 0 {
        lemma_count_none(s.drop_last(), p);
        assert(!p(s[s.len() - 1]));
    }
}

/// The records equal to `x`.
pub open spec fn same_as(x: Issue) -> spec_fn(Issue) -> bool {
    |y: Issue| y == x
}

/// Every record of the board that the collection `before` did not hold is
/// pending.
pub open spec fn changes_are_pending(before: Seq<Issue>, after: ModelView) -> bool {
    forall|k: int|
        0 <= k < after.issues.len() ==> before.contains(#[trigger] after.issues[k])
            || after.dirty.contains(after.issues[k].id)
}

/// What stands in an arrangement stood in the sequence that was arranged.
proof fn lemma_arranged_from(u: Seq<Issue>, x: Issue)
    requires
        arranged(u).contains(x),
    ensures
        u.contains(x),
{
    let a = arranged(u);
    let k = choose|k: int| 0 <= k < a.len() && a[k] == x;
    lemma_count_split(a, k, same_as(x));
    lemma_arranged_count(u, same_as(x));
    let j = lemma_count_witness(u, same_as(x));
    assert(u[j] == x);
}

/// A drag over an issue leaves no change behind that is not pending: every
/// record that the exchange rewrote has its id in the set.
pub proof fn exchange_marks_changes(m: ModelView, target: IssueId)
    ensures
        changes_are_pending(m.issues, after_exchange(m, target)),
{
    let after = after_exchange(m, target);
    if exchange_outcome(m, target) == Reorder::Applied {
        let s = m.issues;
        let dragged_id = m.dragged_id->0;
        let di = index_of_id(s, dragged_id);
        let bi = index_of_id(s, target);
        lemma_holds_id_first(s, dragged_id);
        lemma_holds_id_first(s, target);
        let rest = without_pair(s, di, bi);
        let pair = exchanged_pair(s[di], s[bi]);
        let others = exchanged_rest(rest, s[di], s[bi]);
        let u = others.push(pair.0).push(pair.1);
        assert forall|k: int| 0 <= k < after.issues.len() implies s.contains(
            #[trigger] after.issues[k],
        ) || after.dirty.contains(after.issues[k].id) by {
            let x = after.issues[k];
            lemma_arranged_from(u, x);
            let j = choose|j: int| 0 <= j < u.len() && u[j] == x;
            if j < others.len() {
                if others[j] == rest[j] {
                    let i = if j < di && j < bi {
                        j
                    } else if j + 1 < di || j + 1 < bi {
                        j + 1
                    } else {
                        j + 2
                    };
                    assert(s[i] == rest[j]);
                } else {
                    assert(others[j] == shift_one(rest[j], s[bi]));
                    assert(changed_ids(rest, others).contains(rest[j].id));
                }
            }
        }
    } else {
        assert forall|k: int| 0 <= k < after.issues.len() implies m.issues.contains(
            #[trigger] after.issues[k],
        ) by {}
    }
}

/// A drop on a column leaves no change behind that is not pending: every
/// record that the compaction or the move rewrote has its id in the set.
pub proof fn change_status_marks_changes(m: ModelView, status: IssueStatusId)
    ensures
        changes_are_pending(m.issues, after_change_status(m, status)),
{
    let after = after_change_status(m, status);
    if m.dragged_id is Some {
        let s = m.issues;
        let dragged_id = m.dragged_id->0;
        let q = arranged(s);
        let c = compacted(q, status);
        lemma_arranged_ascending(s);
        if holds_id(c, dragged_id) {
            lemma_holds_id_first(c, dragged_id);
        }
        assert forall|i: int| 0 <= i < c.len() implies s.contains(#[trigger] c[i])
            || changed_ids(q, c).contains(c[i].id) by {
            if c[i] == q[i] {
                assert(q.contains(q[i]));
                lemma_arranged_from(s, q[i]);
            } else {
                assert(q[i].id == c[i].id);
            }
        }
        assert forall|k: int| 0 <= k < after.issues.len() implies s.contains(
            #[trigger] after.issues[k],
        ) || after.dirty.contains(after.issues[k].id) by {
            if holds_id(c, dragged_id) {
                let at = index_of_id(c, dragged_id);
                if k < c.len() - 1 {
                    let i = if k < at {
                        k
                    } else {
                        k + 1
                    };
                    assert(after.issues[k] == c[i]);
                } else {
                    assert(after.issues[k] == dropped(c[at], status, count_where(s, in_column(status))));
                    assert(after.issues[k].id == dragged_id);
                    assert(c[at].issue_status_id == status ==> after.issues[k] == c[at]);
                }
            } else {
                assert(after.issues[k] == c[k]);
            }
        }
    } else {
        assert forall|k: int| 0 <= k < after.issues.len() implies m.issues.contains(
            #[trigger] after.issues[k],
        ) by {}
    }
}

/// After a push nothing is pending, and the board shows what it showed.
pub proof fn sync_settles(m: ModelView)
    ensures
        synced(m).0.dirty == Set::<IssueId>::empty(),
        synced(m).0.issues == m.issues,
        synced(m).0.dragged_id == m.dragged_id,
        synced(m).0.last_id == m.last_id,
        m.ws == ChannelState::Open ==> synced(m).0.ws_queue == m.ws_queue,
        m.ws != ChannelState::Open ==> synced(m).1 == Seq::<WsMsg>::empty(),
{
}

/// The issues whose id is in the set.
pub open spec fn pending_in(dirty: Set<IssueId>) -> spec_fn(Issue) -> bool {
    |i: Issue| dirty.contains(i.id)
}

/// A push sends two requests for each pending issue of the board, and none
/// for an id that the board does not hold.
pub proof fn sync_sends_two_each(s: Seq<Issue>, dirty: Set<IssueId>)
    ensures
        update_requests(s, dirty).len() == 2 * count_where(s, pending_in(dirty)),
    decreases s.len(),
{
    if s.len() > 0 {
        sync_sends_two_each(s.drop_last(), dirty);
    }
}

/// A drag that is given up before anything was reordered leaves no trace:
/// the board shows what it showed, nothing is sent and nothing is queued.
pub proof fn abandoned_drag_leaves_no_trace(m: ModelView, id: IssueId)
    requires
        m.dirty == Set::<IssueId>::empty(),
        m.dragged_id is None,
    ensures
        after_event(after_event(m, BoardEvent::DragStarted(id)), BoardEvent::DragEnded) == m,
        event_wire(after_event(m, BoardEvent::DragStarted(id)), BoardEvent::DragEnded)
            == Seq::<WsMsg>::empty(),
{
    let held = after_event(m, BoardEvent::DragStarted(id));
    sync_sends_two_each(held.issues, held.dirty);
    lemma_count_none(held.issues, pending_in(held.dirty));
    let none = update_requests(held.issues, held.dirty);
    assert(none =~= Seq::<WsMsg>::empty());
    assert(m.ws_queue + none =~= m.ws_queue);
}

/// The server's messages keep the columns in order: after any message that
/// changes the columns they ascend by position, and no other message touches
/// them.
pub proof fn received_keeps_columns_ordered(m: ModelView, msg: WsMsg)
    requires
        ascending(m.issue_statuses),
    ensures
        ascending(received(m, msg).issue_statuses),
{
    match msg {
        WsMsg::IssueStatusesResponse(v) => {
            lemma_arranged_ascending(v@);
        },
        WsMsg::IssueStatusCreated(created) => {
            lemma_arranged_ascending(m.issue_statuses.push(created));
        },
        WsMsg::IssueStatusUpdated(changed) => {
            lemma_arranged_ascending(replaced(m.issue_statuses, changed));
        },
        WsMsg::IssueStatusDeleted(id) => {
            lemma_arranged_ascending(m.issue_statuses.filter(other_status(id)));
        },
        _ => {},
    }
}

/// An exchange leaves the whole collection ascending by position, and so
/// does a full set of issues from the server.
pub proof fn reordered_collection_ascends(m: ModelView, target: IssueId, loaded: Vec<Issue>)
    ensures
        exchange_outcome(m, target) == Reorder::Applied ==> ascending(
            after_exchange(m, target).issues,
        ),
        ascending(received(m, WsMsg::IssuesLoaded(loaded)).issues),
{
    lemma_arranged_ascending(loaded@);
    if exchange_outcome(m, target) == Reorder::Applied {
        let s = m.issues;
        let di = index_of_id(s, m.dragged_id->0);
        let bi = index_of_id(s, target);
        let rest = without_pair(s, di, bi);
        let pair = exchanged_pair(s[di], s[bi]);
        lemma_arranged_ascending(exchanged_rest(rest, s[di], s[bi]).push(pair.0).push(pair.1));
    }
}

} // verus!
