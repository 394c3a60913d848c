use jirs_board::css_line::{is_space, parse_line, remove_all, remove_char, starts_at, trim, Line};
use jirs_board::issue::{Issue, IssueStatus};
use jirs_board::message::{IssueFieldId, PayloadVariant, WsMsg};
use jirs_board::model::{find_issue, ChannelState, Model};
use jirs_board::project::{
    holds, issue_filter_status, issue_filter_with_avatars, issue_filter_with_only_my,
    issue_filter_with_only_recent, project_issue_list, recently_updated, update, BoardEvent,
    BoardFilters,
};
use jirs_board::sql::{
    issue_priority_from_sql, issue_priority_to_sql, issue_status_from_sql, issue_status_to_sql,
    issue_type_from_sql, issue_type_to_sql, same_bytes, spells, IssuePriority, IssueType,
    UnexpectedNull,
};
use jirs_board::ws::issue::Reorder;

fn issue(id: i32, status: i32, position: i32) -> Issue {
    Issue {
        id,
        issue_status_id: status,
        list_position: position,
        reporter_id: 1,
        assignee_ids: Vec::new(),
        updated_at: 0,
    }
}

fn owned(id: i32, status: i32, position: i32, reporter: i32, assignees: Vec<i32>, at: i64) -> Issue {
    Issue {
        id,
        issue_status_id: status,
        list_position: position,
        reporter_id: reporter,
        assignee_ids: assignees,
        updated_at: at,
    }
}

fn no_filters() -> BoardFilters {
    BoardFilters {
        active_avatar_filters: Vec::new(),
        only_my_filter: false,
        recently_updated_filter: false,
    }
}

fn column(id: i32) -> IssueStatus {
    IssueStatus { id, name: "column".to_string(), position: id }
}

fn chars(s: &str) -> Vec<char> {
    s.chars().collect()
}

fn slots(model: &Model) -> Vec<(i32, i32, i32)> {
    model
        .issues
        .iter()
        .map(|i| (i.id, i.issue_status_id, i.list_position))
        .collect()
}

#[test]
fn find_issue_returns_the_first_with_the_id() {
    let mut model = Model::new();
    model.issues = vec![issue(1, 10, 0), issue(2, 10, 1), issue(2, 20, 5)];
    assert_eq!(find_issue(&model, 2), Some(&issue(2, 10, 1)));
    assert_eq!(find_issue(&model, 3), None);
}

#[test]
fn a_whole_drag_reorders_and_pushes() {
    let mut model = Model::new();
    model.ws = ChannelState::Open;
    model.issues = vec![issue(1, 10, 0), issue(2, 20, 0), issue(3, 20, 1)];
    let started = update(BoardEvent::DragStarted(1), &mut model);
    assert_eq!(started.reorder, None);
    assert!(started.wire.is_empty());
    assert_eq!(model.issue_drag.dragged_id, Some(1));

    let over = update(BoardEvent::DropOnIssue(2), &mut model);
    assert_eq!(over.reorder, Some(Reorder::Applied));
    assert!(over.wire.is_empty());
    let again = update(BoardEvent::DropOnIssue(2), &mut model);
    assert_eq!(again.reorder, Some(Reorder::Repeated));
    assert_eq!(slots(&model), vec![(2, 20, 0), (1, 20, 1), (3, 20, 2)]);

    let ended = update(BoardEvent::DragEnded, &mut model);
    assert_eq!(ended.reorder, None);
    assert_eq!(ended.wire.len(), 6);
    assert_eq!(
        ended.wire[2],
        WsMsg::IssueUpdateRequest {
            id: 1,
            field_id: IssueFieldId::IssueStatusId,
            value: PayloadVariant::I32(20),
        }
    );
    assert_eq!(model.issue_drag.dragged_id, None);
    assert_eq!(model.issue_drag.last_id, Some(2));
    assert!(model.issue_drag.dirty.is_empty());
}

#[test]
fn a_drop_on_a_column_is_pushed_when_the_drag_ends() {
    let mut model = Model::new();
    model.issues = vec![issue(1, 10, 4), issue(2, 20, 7)];
    update(BoardEvent::DragStarted(1), &mut model);
    let dropped = update(BoardEvent::DropOnColumn(20), &mut model);
    assert_eq!(dropped.reorder, Some(Reorder::Applied));
    assert_eq!(slots(&model), vec![(2, 20, 0), (1, 20, 1)]);
    let ended = update(BoardEvent::DragEnded, &mut model);
    assert!(ended.wire.is_empty());
    assert_eq!(model.ws_queue.len(), 4);
    assert_eq!(model.issue_drag.dragged_id, None);
}

#[test]
fn a_drag_over_without_room_is_not_tried() {
    let mut model = Model::new();
    model.issues = vec![issue(1, 10, 0), issue(2, 20, i32::MAX)];
    update(BoardEvent::DragStarted(1), &mut model);
    let over = update(BoardEvent::DropOnIssue(2), &mut model);
    assert_eq!(over.reorder, None);
    assert_eq!(slots(&model), vec![(1, 10, 0), (2, 20, i32::MAX)]);
    assert!(model.issue_drag.dirty.is_empty());
    assert_eq!(model.issue_drag.last_id, None);
}

#[test]
fn an_abandoned_drag_leaves_no_trace() {
    let mut model = Model::new();
    model.ws = ChannelState::Open;
    model.issues = vec![issue(1, 10, 0), issue(2, 20, 0)];
    update(BoardEvent::DragStarted(1), &mut model);
    let ended = update(BoardEvent::DragEnded, &mut model);
    assert!(ended.wire.is_empty());
    assert!(model.ws_queue.is_empty());
    assert_eq!(slots(&model), vec![(1, 10, 0), (2, 20, 0)]);
    assert_eq!(model.issue_drag.dragged_id, None);
}

#[test]
fn holds_finds_members() {
    assert!(holds(&vec![3, 1, 2], 1));
    assert!(!holds(&vec![3, 1, 2], 4));
    assert!(!holds(&Vec::new(), 0));
}

#[test]
fn status_filter_compares_the_column() {
    assert!(issue_filter_status(&issue(1, 10, 0), &column(10)));
    assert!(!issue_filter_status(&issue(1, 10, 0), &column(20)));
}

#[test]
fn avatar_filter_looks_at_reporter_and_assignees() {
    let i = owned(1, 10, 0, 7, vec![8, 9], 0);
    assert!(issue_filter_with_avatars(&i, &Vec::new()));
    assert!(issue_filter_with_avatars(&i, &vec![7]));
    assert!(issue_filter_with_avatars(&i, &vec![5, 9]));
    assert!(!issue_filter_with_avatars(&i, &vec![5, 6]));
}

#[test]
fn only_my_filter_looks_at_the_assignees() {
    let i = owned(1, 10, 0, 7, vec![8, 9], 0);
    assert!(issue_filter_with_only_my(&i, false, None));
    assert!(issue_filter_with_only_my(&i, true, Some(8)));
    assert!(!issue_filter_with_only_my(&i, true, Some(7)));
    assert!(!issue_filter_with_only_my(&i, true, None));
    let nobody = owned(2, 10, 0, 7, vec![0], 0);
    assert!(issue_filter_with_only_my(&nobody, true, None));
}

#[test]
fn only_recent_filter_passes_listed_ids() {
    assert!(issue_filter_with_only_recent(&issue(4, 10, 0), &Vec::new()));
    assert!(issue_filter_with_only_recent(&issue(4, 10, 0), &vec![1, 4]));
    assert!(!issue_filter_with_only_recent(&issue(4, 10, 0), &vec![1, 2]));
}

#[test]
fn recently_updated_lists_ten_by_time() {
    let mut issues = Vec::new();
    for k in 0..12 {
        issues.push(owned(k, 10, k, 1, Vec::new(), (100 - 5 * (k % 4)) as i64));
    }
    assert_eq!(recently_updated(&issues), vec![3, 7, 11, 2, 6, 10, 1, 5, 9, 0]);
    assert_eq!(recently_updated(&issues[0..3].to_vec()), vec![2, 1, 0]);
    assert_eq!(recently_updated(&Vec::new()), Vec::<i32>::new());
}

#[test]
fn a_column_shows_its_issues_in_order() {
    let mut model = Model::new();
    model.issues = vec![
        owned(1, 10, 0, 7, vec![8], 50),
        owned(2, 20, 1, 7, vec![9], 40),
        owned(3, 10, 2, 6, vec![9], 30),
        owned(4, 10, 3, 6, vec![5], 20),
    ];
    assert_eq!(project_issue_list(&model, &column(10), &no_filters(), None), vec![1, 3, 4]);
    assert_eq!(project_issue_list(&model, &column(20), &no_filters(), None), vec![2]);
    assert_eq!(project_issue_list(&model, &column(30), &no_filters(), None), Vec::<i32>::new());

    let mut filters = no_filters();
    filters.active_avatar_filters = vec![9, 7];
    assert_eq!(project_issue_list(&model, &column(10), &filters, None), vec![1, 3]);
    filters.only_my_filter = true;
    assert_eq!(project_issue_list(&model, &column(10), &filters, Some(9)), vec![3]);
    assert_eq!(project_issue_list(&model, &column(10), &filters, None), Vec::<i32>::new());
}

#[test]
fn the_recent_filter_cuts_a_long_board() {
    let mut model = Model::new();
    for k in 0..12 {
        model.issues.push(owned(k, 10, k, 1, Vec::new(), k as i64));
    }
    let mut filters = no_filters();
    assert_eq!(project_issue_list(&model, &column(10), &filters, None).len(), 12);
    filters.recently_updated_filter = true;
    assert_eq!(
        project_issue_list(&model, &column(10), &filters, None),
        vec![0, 1, 2, 3, 4, 5, 6, 7, 8, 9]
    );
}

#[test]
fn white_space_is_what_unicode_says() {
    for c in [' ', '\t', '\n', '\r', '\u{b}', '\u{c}', '\u{85}', '\u{a0}', '\u{1680}', '\u{2003}', '\u{2028}', '\u{2029}', '\u{202f}', '\u{205f}', '\u{3000}'] {
        assert!(is_space(c));
    }
    for c in ['a', '@', '\u{0}', '\u{200b}', '\u{1f}', '\u{e}'] {
        assert!(!is_space(c));
    }
    for u in 0..0x3100u32 {
        if let Some(c) = char::from_u32(u) {
            assert_eq!(is_space(c), c.is_whitespace());
        }
    }
}

#[test]
fn trim_cuts_both_ends() {
    assert_eq!(trim(&chars("  a b \t")), chars("a b"));
    assert_eq!(trim(&chars("a")), chars("a"));
    assert_eq!(trim(&chars(" \n ")), chars(""));
    assert_eq!(trim(&chars("")), chars(""));
}

#[test]
fn starts_at_compares_in_place() {
    assert!(starts_at(&chars("xx@import"), 2, &chars("@imp")));
    assert!(!starts_at(&chars("xx@import"), 1, &chars("@imp")));
    assert!(!starts_at(&chars("@im"), 0, &chars("@imp")));
    assert!(starts_at(&chars("abc"), 3, &chars("")));
}

#[test]
fn remove_all_goes_left_to_right() {
    assert_eq!(remove_all(&chars("aaa"), &chars("aa")), chars("a"));
    assert_eq!(remove_all(&chars("xabyabz"), &chars("ab")), chars("xyz"));
    assert_eq!(remove_all(&chars("abc"), &chars("")), chars("abc"));
    assert_eq!(remove_all(&chars("abab"), &chars("ab")), chars(""));
}

#[test]
fn remove_char_drops_every_occurrence() {
    assert_eq!(remove_char(&chars("\"a\".css\""), '"'), chars("a.css"));
    assert_eq!(remove_char(&chars("abc"), ';'), chars("abc"));
}

#[test]
fn lines_are_blank_import_or_text() {
    assert_eq!(parse_line(&chars("")), Line::Blank);
    assert_eq!(parse_line(&chars("  \t ")), Line::Blank);
    assert_eq!(
        parse_line(&chars("  @import \"./css/board.css\";  ")),
        Line::Import(chars("./css/board.css"))
    );
    assert_eq!(parse_line(&chars("@import url;x\"y")), Line::Import(chars("urlxy")));
    assert_eq!(parse_line(&chars("  .issue { color: red; } ")), Line::Text(chars(".issue { color: red; }")));
    assert_eq!(parse_line(&chars("@importx")), Line::Text(chars("@importx")));
    assert_eq!(parse_line(&chars("a @import b")), Line::Text(chars("a @import b")));
}

#[test]
fn bytes_compare_by_content() {
    assert!(same_bytes(b"abc", b"abc"));
    assert!(!same_bytes(b"abc", b"abd"));
    assert!(!same_bytes(b"abc", b"ab"));
    assert!(same_bytes(b"", b""));
    assert!(spells(b"done", "done"));
    assert!(!spells(b"done", "Done"));
}

#[test]
fn priorities_are_read_by_name_or_rank() {
    assert_eq!(issue_priority_from_sql(Some(b"5")), Ok(IssuePriority::Highest));
    assert_eq!(issue_priority_from_sql(Some(b"highest")), Ok(IssuePriority::Highest));
    assert_eq!(issue_priority_from_sql(Some(b"4")), Ok(IssuePriority::High));
    assert_eq!(issue_priority_from_sql(Some(b"high")), Ok(IssuePriority::High));
    assert_eq!(issue_priority_from_sql(Some(b"3")), Ok(IssuePriority::Medium));
    assert_eq!(issue_priority_from_sql(Some(b"medium")), Ok(IssuePriority::Medium));
    assert_eq!(issue_priority_from_sql(Some(b"2")), Ok(IssuePriority::Low));
    assert_eq!(issue_priority_from_sql(Some(b"low")), Ok(IssuePriority::Low));
    assert_eq!(issue_priority_from_sql(Some(b"1")), Ok(IssuePriority::Lowest));
    assert_eq!(issue_priority_from_sql(Some(b"lowest")), Ok(IssuePriority::Lowest));
    assert_eq!(issue_priority_from_sql(Some(b"urgent")), Ok(IssuePriority::Lowest));
    assert_eq!(issue_priority_from_sql(None), Err(UnexpectedNull));
}

#[test]
fn priorities_are_written_by_name() {
    assert_eq!(issue_priority_to_sql(IssuePriority::Highest), b"highest".to_vec());
    assert_eq!(issue_priority_to_sql(IssuePriority::High), b"high".to_vec());
    assert_eq!(issue_priority_to_sql(IssuePriority::Medium), b"medium".to_vec());
    assert_eq!(issue_priority_to_sql(IssuePriority::Low), b"low".to_vec());
    assert_eq!(issue_priority_to_sql(IssuePriority::Lowest), b"lowest".to_vec());
}

#[test]
fn types_are_read_and_written_by_name() {
    assert_eq!(issue_type_from_sql(Some(b"task")), Ok(IssueType::Task));
    assert_eq!(issue_type_from_sql(Some(b"bug")), Ok(IssueType::Bug));
    assert_eq!(issue_type_from_sql(Some(b"story")), Ok(IssueType::Story));
    assert_eq!(issue_type_from_sql(Some(b"epic")), Ok(IssueType::Task));
    assert_eq!(issue_type_from_sql(None), Err(UnexpectedNull));
    assert_eq!(issue_type_to_sql(IssueType::Task), b"task".to_vec());
    assert_eq!(issue_type_to_sql(IssueType::Story), b"story".to_vec());
    assert_eq!(issue_type_to_sql(IssueType::Bug), b"bug".to_vec());
}

#[test]
fn statuses_are_read_and_written_by_name() {
    assert_eq!(issue_status_from_sql(Some(b"backlog")), Ok(jirs_board::sql::IssueStatus::Backlog));
    assert_eq!(issue_status_from_sql(Some(b"selected")), Ok(jirs_board::sql::IssueStatus::Selected));
    assert_eq!(issue_status_from_sql(Some(b"in_progress")), Ok(jirs_board::sql::IssueStatus::InProgress));
    assert_eq!(issue_status_from_sql(Some(b"inprogress")), Ok(jirs_board::sql::IssueStatus::InProgress));
    assert_eq!(issue_status_from_sql(Some(b"done")), Ok(jirs_board::sql::IssueStatus::Done));
    assert_eq!(issue_status_from_sql(Some(b"archived")), Ok(jirs_board::sql::IssueStatus::Backlog));
    assert_eq!(issue_status_from_sql(None), Err(UnexpectedNull));
    assert_eq!(issue_status_to_sql(jirs_board::sql::IssueStatus::Backlog), b"backlog".to_vec());
    assert_eq!(issue_status_to_sql(jirs_board::sql::IssueStatus::Selected), b"selected".to_vec());
    assert_eq!(issue_status_to_sql(jirs_board::sql::IssueStatus::InProgress), b"in_progress".to_vec());
    assert_eq!(issue_status_to_sql(jirs_board::sql::IssueStatus::Done), b"done".to_vec());
}
