//! The channel side of the board: sending, queueing and receiving.
use vstd::prelude::*;
use crate::issue::{Issue, IssueId, IssueStatus, IssueStatusId};
use crate::message::WsMsg;
use crate::model::{ChannelState, Model, ModelView};
use crate::order::{arranged, sort_by_position};

pub mod issue;

verus! {

/// What became of a message handed to `send_ws_msg`.
#[derive(Debug, PartialEq, Eq)]
pub enum Delivery {
    /// The channel is open: the message goes on the wire now.
    Transmit(WsMsg),
    /// The channel is not open: the message waits in the queue.
    Bounced,
}

/// The queue and the wire after `msgs` were sent one by one: all on the wire
/// through an open channel, all at the end of the queue otherwise.
pub open spec fn sent(ws: ChannelState, queue: Seq<WsMsg>, msgs: Seq<WsMsg>) -> (
    Seq<WsMsg>,
    Seq<WsMsg>,
) {
    if ws == ChannelState::Open {
        (queue, msgs)
    } else {
        (queue + msgs, Seq::empty())
    }
}

/// Sends one message: through an open channel it is handed back for the wire,
/// otherwise it is appended to the queue and reported as bounced.
pub fn send_ws_msg(msg: WsMsg, ws: ChannelState, queue: &mut Vec<WsMsg>) -> (d: Delivery)
    ensures
        ws == ChannelState::Open ==> d == Delivery::Transmit(msg) && final(queue)@ == old(queue)@,
        ws != ChannelState::Open ==> d == Delivery::Bounced && final(queue)@ == old(queue)@.push(
            msg,
        ),
{
    match ws {
        ChannelState::Open => Delivery::Transmit(msg),
        _ => {
            queue.push(msg);
            Delivery::Bounced
        },
    }
}

/// Sends every message of `v` in order and returns those that go on the wire.
pub fn enqueue_ws_msg(v: Vec<WsMsg>, ws: ChannelState, queue: &mut Vec<WsMsg>) -> (wire: Vec<
    WsMsg,
>)
    ensures
        (final(queue)@, wire@) == sent(ws, old(queue)@, v@),
{
    let mut v = v;
    let ghost msgs = v@;
    let ghost held = queue@;
    let mut wire: Vec<WsMsg> = Vec::new();
    let mut k: usize = 0;
    let n = v.len();
    while k < n
        invariant
            k <= n,
            n == msgs.len(),
            v@ == msgs.skip(k as int),
            (queue@, wire@) == sent(ws, held, msgs.take(k as int)),
        decreases n - k,
    {
        let msg = v.remove(0);
        assert(v@ =~= msgs.skip(k as int + 1));
        assert(msgs.take(k as int + 1) =~= msgs.take(k as int).push(msg));
        match send_ws_msg(msg, ws, queue) {
            Delivery::Transmit(m) => {
                wire.push(m);
            },
            Delivery::Bounced => {
                assert(queue@ =~= held + msgs.take(k as int + 1));
            },
        }
        k += 1;
    }
    assert(msgs.take(n as int) =~= msgs);
    wire
}

/// The board and the wire after a flush: through an open channel the whole
/// queue goes on the wire in the order in which it was filled; otherwise
/// nothing moves.
pub open spec fn flushed(m: ModelView) -> (ModelView, Seq<WsMsg>) {
    if m.ws == ChannelState::Open {
        (ModelView { ws_queue: Seq::empty(), ..m }, m.ws_queue)
    } else {
        (m, Seq::empty())
    }
}

/// Drains the queue onto the wire where the channel is open.
pub fn flush_queue(model: &mut Model) -> (wire: Vec<WsMsg>)
    ensures
        (final(model)@, wire@) == flushed(old(model)@),
{
    match model.ws {
        ChannelState::Open => {},
        _ => {
            return Vec::new();
        },
    }
    let mut old_queue: Vec<WsMsg> = Vec::new();
    std::mem::swap(&mut model.ws_queue, &mut old_queue);
    let wire = enqueue_ws_msg(old_queue, model.ws, &mut model.ws_queue);
    assert(model@.ws_queue =~= Seq::empty());
    wire
}

/// Whether a connection has to be opened: only from a closed channel and only
/// towards a known host. The channel is then connecting.
pub fn open_socket(model: &mut Model, host_url: &str) -> (connect: bool)
    ensures
        connect == (old(model)@.ws == ChannelState::Closed && host_url@.len() > 0),
        final(model)@ == if connect {
            ModelView { ws: ChannelState::Connecting, ..old(model)@ }
        } else {
            old(model)@
        },
{
    match model.ws {
        ChannelState::Closed => {},
        _ => {
            return false;
        },
    }
    if host_url.is_empty() {
        return false;
    }
    model.ws = ChannelState::Connecting;
    true
}

/// The channel opened: what waited goes on the wire.
pub fn socket_opened(model: &mut Model) -> (wire: Vec<WsMsg>)
    ensures
        (final(model)@, wire@) == flushed(ModelView { ws: ChannelState::Open, ..old(model)@ }),
{
    model.ws = ChannelState::Open;
    flush_queue(model)
}

/// The channel closed: what waits keeps waiting.
pub fn socket_closed(model: &mut Model)
    ensures
        final(model)@ == (ModelView { ws: ChannelState::Closed, ..old(model)@ }),
{
    model.ws = ChannelState::Closed;
}

/// The issues that do not carry the id.
pub open spec fn other_issue(id: IssueId) -> spec_fn(Issue) -> bool {
    |i: Issue| i.id != id
}

/// The columns that do not carry the id.
pub open spec fn other_status(id: IssueStatusId) -> spec_fn(IssueStatus) -> bool {
    |c: IssueStatus| c.id != id
}

/// `s` with every column that carries the id of `changed` replaced by it.
pub open spec fn replaced(s: Seq<IssueStatus>, changed: IssueStatus) -> Seq<IssueStatus> {
    Seq::new(
        s.len(),
        |k: int|
            if s[k].id == changed.id {
                changed
            } else {
                s[k]
            },
    )
}

/// The board after a message from the server.
///
/// A full set of issues replaces the local one whatever is pending or
/// dragged, ordered by position. A deleted issue leaves the board. The
/// columns are ordered by position after every change to them.
pub open spec fn received(m: ModelView, msg: WsMsg) -> ModelView {
    match msg {
        WsMsg::IssuesLoaded(v) => ModelView { issues: arranged(v@), ..m },
        WsMsg::IssueDeleted(id) => ModelView { issues: m.issues.filter(other_issue(id)), ..m },
        WsMsg::IssueStatusesResponse(v) => ModelView { issue_statuses: arranged(v@), ..m },
        WsMsg::IssueStatusCreated(created) => ModelView {
            issue_statuses: arranged(m.issue_statuses.push(created)),
            ..m
        },
        WsMsg::IssueStatusUpdated(changed) => ModelView {
            issue_statuses: arranged(replaced(m.issue_statuses, changed)),
            ..m
        },
        WsMsg::IssueStatusDeleted(id) => ModelView {
            issue_statuses: arranged(m.issue_statuses.filter(other_status(id))),
            ..m
        },
        WsMsg::IssueUpdateRequest { .. } => m,
    }
}

fn remove_issue(issues: &mut Vec<Issue>, id: IssueId)
    ensures
        final(issues)@ == old(issues)@.filter(other_issue(id)),
{
    let ghost s = issues@;
    let ghost p = other_issue(id);
    let ghost mut done: int = 0;
    let mut k: usize = 0;
    proof {
        reveal(Seq::filter);
        assert(s.take(0).filter(p) =~= Seq::empty());
        assert(issues@ =~= s.take(0).filter(p) + s.skip(0));
    }
    while k < issues.len()
        invariant
            0 <= done <= s.len(),
            p == other_issue(id),
            k == s.take(done).filter(p).len(),
            issues@ == s.take(done).filter(p) + s.skip(done),
        decreases s.len() - done,
    {
        proof {
            s.take(done).lemma_filter_push(s[done], p);
            assert(s.take(done + 1) =~= s.take(done).push(s[done]));
            assert(issues@[k as int] == s[done]);
        }
        if issues[k].id == id {
            issues.remove(k);
        } else {
            k += 1;
        }
        proof {
            assert(issues@ =~= s.take(done + 1).filter(p) + s.skip(done + 1));
            done = done + 1;
        }
    }
    proof {
        assert(done == s.len());
        assert(s.take(done) =~= s);
        assert(issues@ =~= s.filter(p));
    }
}

fn remove_status(statuses: &mut Vec<IssueStatus>, id: IssueStatusId)
    ensures
        final(statuses)@ == old(statuses)@.filter(other_status(id)),
{
    let ghost s = statuses@;
    let ghost p = other_status(id);
    let ghost mut done: int = 0;
    let mut k: usize = 0;
    proof {
        reveal(Seq::filter);
        assert(s.take(0).filter(p) =~= Seq::empty());
        assert(statuses@ =~= s.take(0).filter(p) + s.skip(0));
    }
    while k < statuses.len()
        invariant
            0 <= done <= s.len(),
            p == other_status(id),
            k == s.take(done).filter(p).len(),
            statuses@ == s.take(done).filter(p) + s.skip(done),
        decreases s.len() - done,
    {
        proof {
            s.take(done).lemma_filter_push(s[done], p);
            assert(s.take(done + 1) =~= s.take(done).push(s[done]));
            assert(statuses@[k as int] == s[done]);
        }
        if statuses[k].id == id {
            statuses.remove(k);
        } else {
            k += 1;
        }
        proof {
            assert(statuses@ =~= s.take(done + 1).filter(p) + s.skip(done + 1));
            done = done + 1;
        }
    }
    proof {
        assert(done == s.len());
        assert(s.take(done) =~= s);
        assert(statuses@ =~= s.filter(p));
    }
}

fn replace_status(statuses: &mut Vec<IssueStatus>, changed: IssueStatus)
    ensures
        final(statuses)@ == replaced(old(statuses)@, changed),
{
    let ghost s = statuses@;
    let n = statuses.len();
    let mut k: usize = 0;
    while k < n
        invariant
            k <= n,
            n == s.len(),
            statuses@.len() == n,
            forall|j: int| 0 <= j < k ==> statuses@[j] == replaced(s, changed)[j],
            forall|j: int| k <= j < n ==> statuses@[j] == s[j],
        decreases n - k,
    {
        if statuses[k].id == changed.id {
            statuses[k].name = changed.name.clone();
            statuses[k].position = changed.position;
        }
        k += 1;
    }
    assert(statuses@ =~= replaced(s, changed));
}

/// Takes a message from the server into the board.
pub fn update(msg: WsMsg, model: &mut Model)
    ensures
        final(model)@ == received(old(model)@, msg),
{
    match msg {
        WsMsg::IssuesLoaded(v) => {
            let mut v = v;
            sort_by_position(&mut v);
            model.issues = v;
        },
        WsMsg::IssueDeleted(id) => {
            remove_issue(&mut model.issues, id);
        },
        WsMsg::IssueStatusesResponse(v) => {
            let mut v = v;
            sort_by_position(&mut v);
            model.issue_statuses = v;
        },
        WsMsg::IssueStatusCreated(created) => {
            model.issue_statuses.push(created);
            sort_by_position(&mut model.issue_statuses);
        },
        WsMsg::IssueStatusUpdated(changed) => {
            replace_status(&mut model.issue_statuses, changed);
            sort_by_position(&mut model.issue_statuses);
        },
        WsMsg::IssueStatusDeleted(id) => {
            remove_status(&mut model.issue_statuses, id);
            sort_by_position(&mut model.issue_statuses);
        },
        WsMsg::IssueUpdateRequest { .. } => {},
    }
}

} // verus!
