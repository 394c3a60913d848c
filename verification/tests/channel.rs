use jirs_board::css::{Application, CssFile, FileState};
use jirs_board::errors::ServiceErrors;
use jirs_board::issue::{Issue, IssueStatus};
use jirs_board::message::{IssueFieldId, PayloadVariant, WsMsg};
use jirs_board::model::{ChannelState, Model};
use jirs_board::requests::{LoadMessages, MarkMessageSeen};
use jirs_board::ws::issue::{drag_started, exchange_position, Reorder};
use jirs_board::ws::{
    enqueue_ws_msg, flush_queue, open_socket, send_ws_msg, socket_closed, socket_opened, update,
    Delivery,
};

fn issue(id: i32, status: i32, position: i32) -> Issue {
    Issue {
        id,
        issue_status_id: status,
        list_position: position,
        reporter_id: 1,
        assignee_ids: Vec::new(),
        updated_at: 0,
    }
}

fn status(id: i32, name: &str, position: i32) -> IssueStatus {
    IssueStatus { id, name: name.to_string(), position }
}

fn note(id: i32, value: i32) -> WsMsg {
    WsMsg::IssueUpdateRequest {
        id,
        field_id: IssueFieldId::ListPosition,
        value: PayloadVariant::I32(value),
    }
}

#[test]
fn send_on_an_open_channel_hands_the_message_back() {
    let mut queue = vec![note(1, 1)];
    let d = send_ws_msg(note(2, 2), ChannelState::Open, &mut queue);
    assert_eq!(d, Delivery::Transmit(note(2, 2)));
    assert_eq!(queue, vec![note(1, 1)]);
}

#[test]
fn send_on_a_closed_channel_bounces() {
    let mut queue = vec![note(1, 1)];
    let d = send_ws_msg(note(2, 2), ChannelState::Closed, &mut queue);
    assert_eq!(d, Delivery::Bounced);
    assert_eq!(queue, vec![note(1, 1), note(2, 2)]);
}

#[test]
fn send_on_a_connecting_channel_bounces() {
    let mut queue = Vec::new();
    let d = send_ws_msg(note(2, 2), ChannelState::Connecting, &mut queue);
    assert_eq!(d, Delivery::Bounced);
    assert_eq!(queue, vec![note(2, 2)]);
}

#[test]
fn enqueue_keeps_the_order() {
    let mut queue = vec![note(0, 0)];
    let wire = enqueue_ws_msg(vec![note(1, 1), note(2, 2), note(3, 3)], ChannelState::Closed, &mut queue);
    assert!(wire.is_empty());
    assert_eq!(queue, vec![note(0, 0), note(1, 1), note(2, 2), note(3, 3)]);
    let wire = enqueue_ws_msg(vec![note(4, 4), note(5, 5)], ChannelState::Open, &mut queue);
    assert_eq!(wire, vec![note(4, 4), note(5, 5)]);
    assert_eq!(queue.len(), 4);
}

#[test]
fn flush_waits_for_the_channel() {
    let mut model = Model::new();
    model.ws_queue = vec![note(1, 1), note(2, 2)];
    assert!(flush_queue(&mut model).is_empty());
    assert_eq!(model.ws_queue, vec![note(1, 1), note(2, 2)]);
    model.ws = ChannelState::Connecting;
    assert!(flush_queue(&mut model).is_empty());
    assert_eq!(model.ws_queue.len(), 2);
}

#[test]
fn flush_on_open_delivers_once_in_order() {
    let mut model = Model::new();
    for k in 1..4 {
        let d = send_ws_msg(note(k, k), model.ws, &mut model.ws_queue);
        assert_eq!(d, Delivery::Bounced);
    }
    assert_eq!(model.ws_queue.len(), 3);
    let wire = socket_opened(&mut model);
    assert_eq!(model.ws, ChannelState::Open);
    assert_eq!(wire, vec![note(1, 1), note(2, 2), note(3, 3)]);
    assert!(model.ws_queue.is_empty());
    assert!(flush_queue(&mut model).is_empty());
}

#[test]
fn closing_keeps_what_waits() {
    let mut model = Model::new();
    model.ws = ChannelState::Open;
    model.ws_queue = vec![note(1, 1)];
    socket_closed(&mut model);
    assert_eq!(model.ws, ChannelState::Closed);
    assert_eq!(model.ws_queue, vec![note(1, 1)]);
}

#[test]
fn socket_opens_only_from_closed_and_with_a_host() {
    let mut model = Model::new();
    assert!(!open_socket(&mut model, ""));
    assert_eq!(model.ws, ChannelState::Closed);
    assert!(open_socket(&mut model, "ws://localhost:5000/ws/"));
    assert_eq!(model.ws, ChannelState::Connecting);
    assert!(!open_socket(&mut model, "ws://localhost:5000/ws/"));
    assert_eq!(model.ws, ChannelState::Connecting);
    model.ws = ChannelState::Open;
    assert!(!open_socket(&mut model, "ws://localhost:5000/ws/"));
    assert_eq!(model.ws, ChannelState::Open);
}

#[test]
fn replacement_overwrites_local_state() {
    let mut model = Model::new();
    model.issues = vec![issue(1, 10, 0), issue(2, 20, 0), issue(3, 20, 1)];
    drag_started(1, &mut model);
    assert_eq!(exchange_position(2, &mut model), Reorder::Applied);
    assert_eq!(model.issue_drag.dirty.len(), 3);
    update(WsMsg::IssuesLoaded(vec![issue(7, 10, 5), issue(8, 10, 2), issue(9, 20, 2)]), &mut model);
    assert_eq!(model.issues, vec![issue(8, 10, 2), issue(9, 20, 2), issue(7, 10, 5)]);
    assert_eq!(model.issue_drag.dirty.len(), 3);
    assert_eq!(model.issue_drag.dragged_id, Some(1));
    assert_eq!(model.issue_drag.last_id, Some(2));
}

#[test]
fn deleted_issue_leaves_the_board() {
    let mut model = Model::new();
    model.issues = vec![issue(1, 10, 0), issue(2, 20, 0), issue(3, 20, 1), issue(2, 20, 4)];
    update(WsMsg::IssueDeleted(2), &mut model);
    assert_eq!(model.issues, vec![issue(1, 10, 0), issue(3, 20, 1)]);
    update(WsMsg::IssueDeleted(5), &mut model);
    assert_eq!(model.issues, vec![issue(1, 10, 0), issue(3, 20, 1)]);
}

#[test]
fn columns_are_ordered_after_every_change() {
    let mut model = Model::new();
    update(
        WsMsg::IssueStatusesResponse(vec![status(1, "done", 3), status(2, "backlog", 1)]),
        &mut model,
    );
    assert_eq!(model.issue_statuses, vec![status(2, "backlog", 1), status(1, "done", 3)]);
    update(WsMsg::IssueStatusCreated(status(3, "doing", 2)), &mut model);
    assert_eq!(
        model.issue_statuses,
        vec![status(2, "backlog", 1), status(3, "doing", 2), status(1, "done", 3)]
    );
    update(WsMsg::IssueStatusUpdated(status(2, "icebox", 9)), &mut model);
    assert_eq!(
        model.issue_statuses,
        vec![status(3, "doing", 2), status(1, "done", 3), status(2, "icebox", 9)]
    );
    update(WsMsg::IssueStatusUpdated(status(4, "nowhere", 0)), &mut model);
    assert_eq!(model.issue_statuses.len(), 3);
    update(WsMsg::IssueStatusDeleted(1), &mut model);
    assert_eq!(model.issue_statuses, vec![status(3, "doing", 2), status(2, "icebox", 9)]);
}

#[test]
fn update_request_from_the_server_is_ignored() {
    let mut model = Model::new();
    model.issues = vec![issue(1, 10, 0)];
    update(note(1, 5), &mut model);
    assert_eq!(model.issues, vec![issue(1, 10, 0)]);
}

#[test]
fn new_css_file_is_clean_and_empty() {
    let file = CssFile::new("a.css".to_string());
    assert_eq!(file.path, "a.css");
    assert!(file.lines.is_empty());
    assert_eq!(file.last_changed, 0);
    assert_eq!(file.state, FileState::Clean);
}

#[test]
fn registry_finds_files_by_path() {
    let mut app = Application::new("styles.css".to_string(), None, true, false);
    assert_eq!(app.input, "styles.css");
    assert_eq!(app.output, None);
    assert!(app.watch);
    assert!(!app.prelude_selector);
    assert_eq!(app.css_at_path(&"a.css".to_string()), None);
    assert_eq!(app.register("a.css".to_string()), 0);
    assert_eq!(app.register("b.css".to_string()), 1);
    assert_eq!(app.register("a.css".to_string()), 0);
    assert_eq!(app.fm.len(), 2);
    assert_eq!(app.css_at_path(&"b.css".to_string()), Some(1));
    assert_eq!(app.css_at_path(&"c.css".to_string()), None);
}

#[test]
fn watcher_reports_mark_one_file() {
    let mut app = Application::new("styles.css".to_string(), Some("out.css".to_string()), false, true);
    app.register("a.css".to_string());
    app.register("b.css".to_string());
    app.mark_dirty(&"b.css".to_string());
    assert_eq!(app.fm[0].state, FileState::Clean);
    assert_eq!(app.fm[1].state, FileState::Dirty);
    app.mark_dead(&"a.css".to_string());
    assert_eq!(app.fm[0].state, FileState::Dead);
    assert_eq!(app.fm[1].state, FileState::Dirty);
    app.mark_dead(&"c.css".to_string());
    app.mark_dirty(&"c.css".to_string());
    assert_eq!(app.fm.len(), 2);
    assert_eq!(app.fm[0].state, FileState::Dead);
    assert_eq!(app.fm[1].state, FileState::Dirty);
    assert_eq!(app.fm[1].path, "b.css");
}

#[test]
fn service_errors_map_to_http_statuses() {
    assert_eq!(ServiceErrors::Unauthorized.status_code(), 401);
    assert_eq!(ServiceErrors::DatabaseConnectionLost.status_code(), 500);
    assert_eq!(ServiceErrors::DatabaseQueryFailed("syntax".to_string()).status_code(), 400);
    assert_eq!(ServiceErrors::RecordNotFound("user 4".to_string()).status_code(), 400);
    assert_eq!(ServiceErrors::RegisterCollision.status_code(), 401);
}

#[test]
fn inbox_requests_carry_the_message_id() {
    let load = LoadMessages;
    assert_eq!(load, LoadMessages);
    let seen = MarkMessageSeen { id: 12 };
    assert_eq!(seen.id, 12);
}
