use dozer_app::calendar::{civil_from_days, days_from_civil, days_in_month, first_weekday_of_month, format_todo_month_day, parse_month_day};
use dozer_app::todo_model::{TodoDrag, category_descendants, completed_at_for_toggle, filter_todos, filter_todos_by_category, todo_display_state, visible_category_rows, CategoryFilter, CategoryInfo, TodoInfo, TodoState};
use dozer_app::todo_state::{Effect, Message, Now, WorkspaceState};

fn todo_info(id: i64, text: &str, done: bool) -> TodoInfo {
    TodoInfo {
        id,
        project_id: 1,
        text: text.to_string(),
        done,
        paused: false,
        rank: 0,
        created_ms: 0,
        completed_at_ms: None,
        plan_date: None,
        dispatch_session_id: None,
        dispatch_at_ms: None,
        category_id: None,
        assigned_agent: None,
    }
}

fn todo_with_category(id: i64, category_id: Option<i64>) -> TodoInfo {
    TodoInfo {
        id,
        project_id: 1,
        text: format!("任务{id}"),
        done: false,
        paused: false,
        rank: 0,
        created_ms: 0,
        completed_at_ms: None,
        plan_date: None,
        dispatch_session_id: None,
        dispatch_at_ms: None,
        category_id,
        assigned_agent: None,
    }
}

fn cat(id: i64, parent_id: Option<i64>, name: &str) -> CategoryInfo {
    CategoryInfo {
        id,
        project_id: 1,
        parent_id,
        name: name.into(),
        rank: 0,
        created_ms: 0,
        auto_poll_enabled: false,
    }
}

fn sample_states() -> Vec<TodoInfo> {
    vec![
        todo_info(1, "修复登录页闪烁", false),
        todo_info(2, "补 README 安装说明", true),
        todo_info(3, "给 codex 指派生成报告", false),
    ]
}

const NOW: Now = Now { wall_ms: 0, mono_ms: 0 };

fn loaded_state(items: Vec<TodoInfo>) -> WorkspaceState<()> {
    let mut ws_state = WorkspaceState::<()>::new();
    ws_state.update(Message::Loaded(items), 1, NOW);
    ws_state
}

fn editing_state(stored: &str, draft: &str) -> WorkspaceState<()> {
    let mut ws_state = loaded_state(vec![todo_info(7, stored, false)]);
    ws_state.update(Message::ContentEditStart(0), 1, NOW);
    ws_state.update(Message::ContentEdited(draft.to_string(), false), 1, NOW);
    ws_state
}

#[test]
fn todo_display_state_done_wins_over_dispatch() {
    let mut item = todo_info(1, "任务A", true);
    item.dispatch_session_id = Some("s1".into());
    assert_eq!(todo_display_state(&item, true), TodoState::Done);
    item.done = false;
    assert_eq!(todo_display_state(&item, true), TodoState::InProgress);
    assert_eq!(todo_display_state(&item, false), TodoState::Pending);
    item.dispatch_session_id = None;
    assert_eq!(todo_display_state(&item, true), TodoState::Pending);
}

#[test]
fn todo_filter_all_with_empty_query_keeps_everything() {
    let items = sample_states();
    let hits = filter_todos(&items, "");
    assert_eq!(hits, vec![0, 1, 2]);
}

#[test]
fn todo_filter_by_keyword_case_insensitive_substring() {
    let items = sample_states();
    assert_eq!(filter_todos(&items, "CODEX"), vec![2]);
}

#[test]
fn todo_filter_keyword_is_substring_match_on_text() {
    let items = sample_states();
    assert_eq!(filter_todos(&items, "登录"), vec![0]);
    assert_eq!(filter_todos(&items, "不存在的关键词"), Vec::<usize>::new());
}

#[test]
fn todo_completed_at_for_toggle_reflects_done() {
    let now = std::time::SystemTime::now();
    assert_eq!(completed_at_for_toggle(true, now), Some(now));
    assert_eq!(completed_at_for_toggle(false, now), None);
}

#[test]
fn todo_calendar_parse_month_day_accepts_mm_dd_and_rejects_bad_input() {
    assert_eq!(parse_month_day("08-10"), Some((8, 10)));
    assert_eq!(parse_month_day("8-3"), Some((8, 3)));
    assert_eq!(parse_month_day("13-01"), None);
    assert_eq!(parse_month_day("08"), None);
    assert_eq!(parse_month_day("abc"), None);
}

#[test]
fn todo_calendar_days_in_month_handles_leap_years() {
    assert_eq!(days_in_month(2024, 2), 29);
    assert_eq!(days_in_month(2023, 2), 28);
    assert_eq!(days_in_month(2024, 4), 30);
    assert_eq!(days_in_month(2024, 1), 31);
    assert_eq!(days_in_month(2024, 13), 0);
}

#[test]
fn todo_calendar_first_weekday_of_1970_jan_is_thursday() {
    assert_eq!(first_weekday_of_month(1970, 1), 4);
}

#[test]
fn todo_calendar_days_from_civil_round_trips() {
    assert_eq!(days_from_civil(1970, 1, 1), 0);
    assert_eq!(civil_from_days(0), (1970, 1, 1));
    assert_eq!(civil_from_days(days_from_civil(2024, 2, 29)), (2024, 2, 29));
}

#[test]
fn todo_format_month_day_from_ms() {
    assert_eq!(format_todo_month_day(0), "01-01");
}

#[test]
fn todo_task_title_for_session_finds_dispatched_task() {
    let mut items = vec![todo_info(1, "任务A", false), todo_info(2, "任务B", false)];
    items[1].dispatch_session_id = Some("sess-1".to_string());
    let ws_state = loaded_state(items);
    assert_eq!(ws_state.task_title_for_session("sess-1"), Some("任务B"));
}

#[test]
fn todo_task_title_for_session_none_when_no_dispatch_matches() {
    let ws_state = loaded_state(vec![todo_info(1, "任务A", false)]);
    assert_eq!(ws_state.task_title_for_session("sess-1"), None);
}

#[test]
fn todo_commit_content_edit_returns_id_and_text_when_changed() {
    let mut ws_state = editing_state("旧文字", "新文字");
    let result = ws_state.commit_content_edit();
    assert_eq!(result, Some((7, "新文字".to_string())));
    assert!(ws_state.editing_content().is_none());
}

#[test]
fn todo_commit_content_edit_none_when_unchanged() {
    let mut ws_state = editing_state("同样的文字", "同样的文字");
    assert_eq!(ws_state.commit_content_edit(), None);
}

#[test]
fn todo_commit_content_edit_none_when_draft_empty() {
    let mut ws_state = editing_state("旧文字", "");
    assert_eq!(ws_state.commit_content_edit(), None);
}

#[test]
fn todo_visible_category_rows_flattens_by_expanded_state() {
    let categories = vec![
        cat(1, None, "前端"),
        cat(2, Some(1), "UI"),
        cat(3, Some(1), "性能"),
        cat(4, Some(2), "组件库"),
        cat(5, None, "后端"),
        cat(6, Some(5), "数据库"),
    ];
    let mut expanded = std::collections::HashSet::new();
    expanded.insert(1);
    let rows = visible_category_rows(&categories, &expanded);
    let visible_ids: Vec<i64> = rows.iter().map(|r| r.id).collect();
    assert_eq!(
        visible_ids,
        vec![1, 2, 3, 5],
        "只展开了前端,UI/后端的子节点都不可见"
    );
    let front = rows.iter().find(|r| r.id == 1).unwrap();
    assert_eq!(front.depth, 0);
    assert!(front.has_children);
    assert!(front.expanded);
    let ui = rows.iter().find(|r| r.id == 2).unwrap();
    assert_eq!(ui.depth, 1);
    assert!(
        ui.has_children,
        "UI 有子节点组件库,即使未展开也要标记有子节点"
    );
    assert!(!ui.expanded);
    let perf = rows.iter().find(|r| r.id == 3).unwrap();
    assert!(!perf.has_children);
}

#[test]
fn todo_category_descendants_covers_multi_level_and_excludes_root() {
    let categories = vec![
        cat(1, None, "前端"),
        cat(2, Some(1), "UI"),
        cat(3, Some(2), "组件库"),
        cat(4, None, "后端"),
    ];
    let descendants = category_descendants(&categories, 1);
    assert_eq!(
        descendants,
        std::collections::HashSet::from([2, 3]),
        "根节点自己不算子孙,后端这条不相关分支不应该出现"
    );
    assert!(
        category_descendants(&categories, 3).is_empty(),
        "叶子节点没有子孙"
    );
}

#[test]
fn todo_filter_todos_by_category_all_returns_everything() {
    let todos = vec![todo_with_category(1, Some(10)), todo_with_category(2, None)];
    let categories = vec![cat(10, None, "分类")];
    let ids = filter_todos_by_category(&todos, &categories, CategoryFilter::All);
    assert_eq!(ids, std::collections::HashSet::from([1, 2]));
}

#[test]
fn todo_filter_todos_by_category_uncategorized_only() {
    let todos = vec![todo_with_category(1, Some(10)), todo_with_category(2, None)];
    let ids = filter_todos_by_category(&todos, &[], CategoryFilter::Uncategorized);
    assert_eq!(ids, std::collections::HashSet::from([2]));
}

#[test]
fn todo_filter_todos_by_category_node_includes_descendant_tasks() {
    let todos = vec![
        todo_with_category(1, Some(10)),
        todo_with_category(2, Some(11)),
        todo_with_category(3, None),
    ];
    let categories = vec![cat(10, None, "前端"), cat(11, Some(10), "UI")];
    let ids = filter_todos_by_category(&todos, &categories, CategoryFilter::Node(10));
    assert_eq!(ids, std::collections::HashSet::from([1, 2]));
    let ids = filter_todos_by_category(&todos, &categories, CategoryFilter::Node(11));
    assert_eq!(ids, std::collections::HashSet::from([2]));
}

#[test]
fn dropping_on_a_finished_card_moves_the_task_after_the_last_active_one() {
    let mut ws = loaded_state(vec![
        todo_info(1, "a", false),
        todo_info(3, "b", false),
        todo_info(2, "c", true),
    ]);
    ws.update(Message::RowSelect(Some(0)), 1, NOW);
    assert_eq!(ws.drag(), Some(TodoDrag { source_idx: 0, target_idx: 0 }));
    assert!(ws.update(Message::DragMove(2), 1, NOW).is_empty());
    assert_eq!(ws.drag(), Some(TodoDrag { source_idx: 0, target_idx: usize::MAX }));
    let effects = ws.update(Message::DragEnd, 1, NOW);
    assert_eq!(effects, vec![Effect::ReorderTodo { id: 1, after: Some(3) }]);
    assert_eq!(ws.drag(), None);
}

#[test]
fn dropping_the_last_active_task_on_a_finished_card_changes_nothing() {
    let mut ws = loaded_state(vec![todo_info(1, "a", false), todo_info(2, "b", true)]);
    ws.update(Message::RowSelect(Some(0)), 1, NOW);
    ws.update(Message::DragMove(1), 1, NOW);
    assert_eq!(ws.drag(), Some(TodoDrag { source_idx: 0, target_idx: usize::MAX }));
    assert!(ws.update(Message::DragEnd, 1, NOW).is_empty());
    assert_eq!(ws.drag(), None);
}

#[test]
fn paging_the_date_picker_forward_and_back_returns_to_the_month() {
    let mut ws = loaded_state(vec![todo_info(1, "a", false)]);
    ws.update(Message::CalendarOpen(0), 1, NOW);
    assert_eq!(ws.calendar_view(), (1970, 1));
    assert!(ws.update(Message::CalendarNextMonth, 1, NOW).is_empty());
    assert_eq!(ws.calendar_view(), (1970, 2));
    assert!(ws.update(Message::CalendarPrevMonth, 1, NOW).is_empty());
    assert_eq!(ws.calendar_view(), (1970, 1));
    ws.update(Message::CalendarPrevMonth, 1, NOW);
    assert_eq!(ws.calendar_view(), (1969, 12));
    ws.update(Message::CalendarNextMonth, 1, NOW);
    assert_eq!(ws.calendar_view(), (1970, 1));
}
