//! The state of one board session.
use vstd::prelude::*;
use crate::drag::IssueDrag;
use crate::issue::{
    Issue, IssueId, IssueStatus, holds_id, index_of_id, lemma_first_with_id_unique, position_of_id,
};
use crate::message::WsMsg;

verus! {

/// The readiness of the channel to the server.
#[derive(Clone, Copy, Debug, PartialEq, Eq, Structural)]
pub enum ChannelState {
    Closed,
    Connecting,
    Open,
}

/// Everything the board owns: the issues as last seen or locally reordered,
/// the columns, the drag state, and the channel with its pending messages.
#[derive(Debug)]
pub struct Model {
    pub issues: Vec<Issue>,
    pub issue_statuses: Vec<IssueStatus>,
    pub issue_drag: IssueDrag,
    pub ws: ChannelState,
    pub ws_queue: Vec<WsMsg>,
}

/// A board session as a mathematical value.
pub struct ModelView {
    pub issues: Seq<Issue>,
    pub issue_statuses: Seq<IssueStatus>,
    pub dragged_id: Option<IssueId>,
    pub last_id: Option<IssueId>,
    pub dirty: Set<IssueId>,
    pub ws: ChannelState,
    pub ws_queue: Seq<WsMsg>,
}

impl View for Model {
    type V = ModelView;

    open spec fn view(&self) -> ModelView {
        ModelView {
            issues: self.issues@,
            issue_statuses: self.issue_statuses@,
            dragged_id: self.issue_drag.dragged_id,
            last_id: self.issue_drag.last_id,
            dirty: self.issue_drag.dirty@,
            ws: self.ws,
            ws_queue: self.ws_queue@,
        }
    }
}

/// The empty board behind a closed channel.
pub open spec fn empty_board() -> ModelView {
    ModelView {
        issues: Seq::empty(),
        issue_statuses: Seq::empty(),
        dragged_id: None,
        last_id: None,
        dirty: Set::empty(),
        ws: ChannelState::Closed,
        ws_queue: Seq::empty(),
    }
}

impl Model {
    /// An empty board behind a closed channel.
    pub fn new() -> (m: Model)
        ensures
            m@ == empty_board(),
    {
        let m = Model {
            issues: Vec::new(),
            issue_statuses: Vec::new(),
            issue_drag: IssueDrag::new(),
            ws: ChannelState::Closed,
            ws_queue: Vec::new(),
        };
        assert(m@.issues =~= Seq::empty() && m@.issue_statuses =~= Seq::empty() && m@.ws_queue
            =~= Seq::empty());
        m
    }
}

/// The first issue of the board with the id.
pub fn find_issue(model: &Model, issue_id: IssueId) -> (found: Option<&Issue>)
    ensures
        found is Some == holds_id(model@.issues, issue_id),
        found is Some ==> *found->0 == model@.issues[index_of_id(model@.issues, issue_id)],
{
    match position_of_id(&model.issues, issue_id) {
        Some(k) => {
            proof {
                lemma_first_with_id_unique(model.issues@, issue_id, k as int);
            }
            Some(&model.issues[k])
        },
        None => None,
    }
}

} // verus!
