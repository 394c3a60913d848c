//! The messages that travel over the channel, in both directions.
use vstd::prelude::*;
use crate::issue::{Issue, IssueId, IssueStatus, IssueStatusId};

verus! {

/// The field of an issue that an update request writes.
#[derive(Clone, Copy, Debug, PartialEq, Eq)]
pub enum IssueFieldId {
    IssueStatusId,
    ListPosition,
}

/// The value that an update request carries.
#[derive(Clone, Debug, PartialEq, Eq)]
pub enum PayloadVariant {
    I32(i32),
    String(String),
}

/// One frame of the channel: a full replacement sent by the server, or a
/// request to set one field of one record.
#[derive(Clone, Debug, PartialEq, Eq)]
pub enum WsMsg {
    IssuesLoaded(Vec<Issue>),
    IssueUpdateRequest { id: IssueId, field_id: IssueFieldId, value: PayloadVariant },
    IssueDeleted(IssueId),
    IssueStatusesResponse(Vec<IssueStatus>),
    IssueStatusCreated(IssueStatus),
    IssueStatusUpdated(IssueStatus),
    IssueStatusDeleted(IssueStatusId),
}

/// The request that writes an issue's column upstream.
pub open spec fn status_request(issue: Issue) -> WsMsg {
    WsMsg::IssueUpdateRequest {
        id: issue.id,
        field_id: IssueFieldId::IssueStatusId,
        value: PayloadVariant::I32(issue.issue_status_id),
    }
}

/// The request that writes an issue's position upstream.
pub open spec fn position_request(issue: Issue) -> WsMsg {
    WsMsg::IssueUpdateRequest {
        id: issue.id,
        field_id: IssueFieldId::ListPosition,
        value: PayloadVariant::I32(issue.list_position),
    }
}

} // verus!
