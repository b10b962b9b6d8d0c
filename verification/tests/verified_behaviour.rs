use dozer_app::agent::AgentKind;
use dozer_app::calendar::{calendar_grid, civil_from_days, days_from_civil, days_in_month, today_ymd, ymd_from_unix_secs};
use dozer_app::chart::{grid_ticks, nice_tick_step};
use dozer_app::fonts::{is_poisoned_face, poisoned_faces, CODE_FONT_FAMILY};
use dozer_app::external_apps::{path_extension_of, ExternalAppsConfig};
use dozer_app::sftp::{remote_base_name, route, Message as SftpMessage, SftpAction, SftpCmd, SftpTabState};
use dozer_app::ssh::{hosts_path, AuthMethod, SshHost, SshHostDraft, TestOutcome, TestStatus, WorkspaceState as SshState, Message as SshMessage, test_outcome_messages};
use dozer_app::ssh_view::{session_labels, delete_prompt_name, editor_status, host_card_facts, host_form_facts, test_status_line};
use dozer_app::todo_model::{CategoryFilter, StatusFilter, TodoDrag, TodoInfo, TodoState};
use dozer_app::todo_view::{status_filter_menu, calendar_title, card_facts, list_layout, picker_selection_at, plan_day_label, status_filter_label};
use dozer_app::usage::{today_day_index, ConversationMeta, ConversationUsage, Message as UsageMessage, WorkspaceState as UsageState, update};
use dozer_app::usage_view::{agent_filter_entries, AgentFilterEntry, share_percentages, overview_sections, project_token_total, usage_content, UsageContent};

fn todo(id: i64, text: &str) -> TodoInfo {
    TodoInfo {
        id,
        project_id: 1,
        text: text.to_string(),
        done: false,
        paused: false,
        rank: 0,
        created_ms: 0,
        completed_at_ms: None,
        plan_date: None,
        dispatch_session_id: None,
        dispatch_at_ms: None,
        category_id: None,
        assigned_agent: None,
    }
}

fn host(id: &str) -> SshHost {
    SshHost {
        id: id.into(),
        name: format!("box-{id}"),
        host: "10.1.2.3".into(),
        port: 2200,
        username: "ops".into(),
        auth: AuthMethod::Password,
    }
}

#[test]
fn calendar_round_trips_both_ways_over_many_days() {
    let mut z: i64 = -1_000_000;
    while z <= 1_000_000 {
        let (y, m, d) = civil_from_days(z);
        assert!((1..=12).contains(&m));
        assert!(d >= 1 && d <= days_in_month(y as i32, m));
        assert_eq!(days_from_civil(y as i32, m, d), z);
        z += 997;
    }
    for (y, m, d) in [(2000, 2, 29), (1900, 2, 28), (1600, 12, 31), (-1, 3, 1), (2024, 12, 31)] {
        assert_eq!(civil_from_days(days_from_civil(y, m, d)), (y as i64, m, d));
    }
}

#[test]
fn month_grid_of_february_2024_starts_on_thursday() {
    let grid = calendar_grid(2024, 2, Some((2, 29)));
    assert_eq!(grid.len(), 5);
    assert_eq!(grid[0][0], None);
    assert_eq!(grid[0][4], Some((1, false)));
    assert_eq!(grid[4].len(), 5);
    assert_eq!(grid[4][4], Some((29, true)));
}

#[test]
fn clock_reads_a_plausible_date() {
    let (y, m, d) = today_ymd();
    assert!(y >= 2024 && (1..=12).contains(&m) && d >= 1);
    assert!(today_day_index() > 19_700);
    assert_eq!(ymd_from_unix_secs(86_400 * 20_672), (2026, 8, 7));
}

#[test]
fn nice_steps_stay_in_the_1_2_5_family() {
    assert_eq!(nice_tick_step(0, 4), 1);
    assert_eq!(nice_tick_step(100, 4), 50);
    assert_eq!(nice_tick_step(1000, 0), 1000);
    assert_eq!(nice_tick_step(999, 4), 500);
    for max in [3u64, 17, 250, 7_777, 123_456_789] {
        let s = nice_tick_step(max, 4);
        let mut m = s;
        while m % 10 == 0 {
            m /= 10;
        }
        assert!(m == 1 || m == 2 || m == 5, "{max} -> {s}");
    }
    assert_eq!(grid_ticks(100), vec![50, 100]);
}

#[test]
fn extensions_follow_std_path_rules() {
    for p in ["/tmp/a.txt", "/tmp/.bashrc", "/tmp/archive.tar.gz", "/tmp/dir/", "/tmp/x.", "noext", "/a/b.RS/", "..", "/tmp/..", "/tmp/a.b/."] {
        let ours = path_extension_of(p);
        let std_ext = std::path::Path::new(p).extension().map(|e| e.to_string_lossy().into_owned());
        assert_eq!(ours, std_ext, "{p}");
    }
}

#[test]
fn later_setting_of_an_extension_wins() {
    let mut config = ExternalAppsConfig::default();
    config.insert("md".into(), "Typora".into());
    config.insert("md".into(), "Obsidian".into());
    assert_eq!(config.lookup_for_path("/notes/README.Md"), Some("Obsidian"));
    assert_eq!(config.entries().len(), 1);
}

#[test]
fn remote_base_name_is_the_last_component() {
    assert_eq!(remote_base_name("/home/u/file.txt"), "file.txt");
    assert_eq!(remote_base_name("file.txt"), "file.txt");
    assert_eq!(remote_base_name("/home/u/"), "");
}

#[test]
fn sftp_routes_to_the_tab_of_the_host() {
    let mut tabs = vec![
        SftpTabState::new("a".into(), "/local".into(), "".into()),
        SftpTabState::new("b".into(), "/local".into(), "".into()),
    ];
    tabs[1].connected = true;
    let actions = route(&mut tabs, SftpMessage::Connected("b".into(), Ok("/home/b".into())));
    assert_eq!(actions, vec![SftpAction::Send("b".into(), SftpCmd::ReadDir("/home/b".into()))]);
    assert_eq!(tabs[1].remote_tree.root(), "/home/b");
    assert_eq!(tabs[0].remote_tree.root(), "");
    assert!(route(&mut tabs, SftpMessage::Upload("b".into())).is_empty());
    route(&mut tabs, SftpMessage::LocalSelect("b".into(), "/local/x".into()));
    let up = route(&mut tabs, SftpMessage::Upload("b".into()));
    assert_eq!(
        up,
        vec![SftpAction::Send("b".into(), SftpCmd::Upload { local: "/local/x".into(), remote_dir: "/home/b".into() })]
    );
    assert_eq!(tabs[1].status, Some(("正在上传…".to_string(), false)));
    route(&mut tabs, SftpMessage::Connected("a".into(), Err("refused".into())));
    assert_eq!(tabs[0].status, Some(("SFTP 连接失败: refused".to_string(), true)));
    assert!(route(&mut tabs, SftpMessage::Download("zzz".into())).is_empty());
}

#[test]
fn host_card_and_form_facts() {
    let h = host("h1");
    let facts = host_card_facts(&h, &TestStatus::UnknownHostKey { fingerprint: "fp".into() }, &Some(("h1".into(), 2)), Some("Debian 12"));
    assert_eq!(facts.title, "box-h1 (Debian 12)");
    assert_eq!(facts.address, "ops@10.1.2.3:2200");
    assert_eq!(facts.hovered_button, Some(2));
    assert!(facts.offer_trust);
    let other = host_card_facts(&h, &TestStatus::Idle, &Some(("h2".into(), 1)), None);
    assert_eq!(other.title, "box-h1");
    assert_eq!(other.hovered_button, None);
    assert!(!other.offer_trust);

    let mut draft = SshHostDraft::new();
    let form = host_form_facts(&draft, &TestStatus::UnknownHostKey { fingerprint: "fp".into() });
    assert_eq!(form.test_target, "");
    assert!(!form.offer_delete && !form.offer_trust && !form.key_path_field);
    draft.id = Some("h1".into());
    draft.use_private_key = true;
    let form = host_form_facts(&draft, &TestStatus::KeyChanged { fingerprint: "fp".into() });
    assert_eq!(form.test_target, "h1");
    assert!(form.offer_delete && form.key_path_field && !form.offer_trust);
    assert_eq!(form.status_line, "✗ 主机指纹已变化(fp),拒绝连接");
}

#[test]
fn test_status_lines() {
    assert_eq!(test_status_line(&TestStatus::Idle), "");
    assert_eq!(test_status_line(&TestStatus::Testing), "测试中…");
    assert_eq!(test_status_line(&TestStatus::Passed), "✓ 连接成功");
    assert_eq!(test_status_line(&TestStatus::UnknownHostKey { fingerprint: "SHA256:ab".into() }), "⚠ 未知主机,指纹 SHA256:ab");
    assert_eq!(test_status_line(&TestStatus::Failed("timeout".into())), "✗ timeout");
}

#[test]
fn editor_status_and_delete_prompt() {
    let mut ws = SshState::with_hosts(vec![host("a")]);
    ws.update(SshMessage::TestConnection("a".into()), 1);
    assert_eq!(editor_status(&ws, Some("a")), TestStatus::Testing);
    assert_eq!(editor_status(&ws, Some("b")), TestStatus::Idle);
    assert_eq!(editor_status(&ws, None), TestStatus::Idle);
    assert_eq!(delete_prompt_name(&ws, "a"), "box-a");
    assert_eq!(delete_prompt_name(&ws, "gone"), "gone");
}

#[test]
fn test_outcomes_become_messages() {
    let msgs = test_outcome_messages(4, "h".into(), TestOutcome::KeyChanged { fingerprint: "F".into() });
    assert_eq!(msgs.len(), 2);
    assert!(matches!(&msgs[0], SshMessage::KeyChanged(4, id, fp) if id == "h" && fp == "F"));
    assert!(matches!(&msgs[1], SshMessage::TestConnectionResult(4, id, Err(e)) if id == "h" && e == "主机指纹已变化(F),拒绝连接"));
    let msgs = test_outcome_messages(4, "h".into(), TestOutcome::UnknownHostKey { fingerprint: "F".into(), key: vec![1] });
    assert!(matches!(&msgs[0], SshMessage::UnknownKeyDetected(4, _, _, k) if k == &vec![1u8]));
    assert!(matches!(&msgs[1], SshMessage::TestConnectionResult(4, _, Err(e)) if e == "未知主机,指纹 F——需要确认信任"));
    let msgs = test_outcome_messages(4, "h".into(), TestOutcome::TimedOut);
    assert!(matches!(&msgs[0], SshMessage::TestConnectionResult(4, _, Err(e)) if e == "连接超时(5秒)"));
    let msgs = test_outcome_messages(4, "h".into(), TestOutcome::Connected);
    assert!(matches!(&msgs[0], SshMessage::TestConnectionResult(4, _, Ok(()))));
}

#[test]
fn list_layout_splits_blocks_and_places_the_drop_marker() {
    let mut items = vec![todo(1, "a"), todo(2, "b"), todo(3, "c"), todo(4, "d")];
    items[1].paused = true;
    items[2].done = true;
    let drag = TodoDrag { source_idx: 0, target_idx: 3 };
    let layout = list_layout(&items, &[], "", &[], CategoryFilter::All, StatusFilter::All, Some(drag));
    assert_eq!(layout.visible, vec![0, 1, 2, 3]);
    assert_eq!(layout.active, vec![0, 3]);
    assert_eq!(layout.suspended, vec![1]);
    assert_eq!(layout.done, vec![2]);
    assert_eq!(layout.insert_before, Some(1));
    assert!(!layout.insert_at_end);
    let only_done = list_layout(&items, &[], "", &[], CategoryFilter::All, StatusFilter::Status(TodoState::Done), None);
    assert_eq!(only_done.visible, vec![2]);
    items[3].dispatch_session_id = Some("s9".into());
    let alive = vec!["s9".to_string()];
    let running = list_layout(&items, &alive, "", &[], CategoryFilter::All, StatusFilter::Status(TodoState::InProgress), None);
    assert_eq!(running.visible, vec![3]);
}

#[test]
fn card_labels() {
    let mut item = todo(9, "x");
    item.plan_date = Some("08-10".into());
    let facts = card_facts(&item, TodoState::Pending, 7, 0, false, &[]);
    assert_eq!(facts.number_label, "#007");
    assert_eq!(facts.date_label, "08-10");
    assert_eq!(facts.category_label, "未分类");
    assert!(facts.show_assign && !facts.show_detail);
    assert_eq!(facts.press_selects, Some(0));
    item.completed_at_ms = Some(0);
    item.done = true;
    let facts = card_facts(&item, TodoState::Done, 1234, 3, true, &[]);
    assert_eq!(facts.number_label, "#1234");
    assert_eq!(facts.date_label, "01-01");
    assert_eq!(facts.press_selects, None);
}

#[test]
fn picker_labels() {
    assert_eq!(calendar_title(2026, 8), "2026-08");
    assert_eq!(calendar_title(-44, 3), "-44-03");
    assert_eq!(plan_day_label(1, 9), "01-09");
    assert_eq!(status_filter_label(StatusFilter::All), "全部");
    assert_eq!(status_filter_label(StatusFilter::Status(TodoState::Suspended)), "搁置");
    assert_eq!(picker_selection_at(Some("12-25"), (2026, 1), (2026, 1, 5)), Some((12, 25)));
    assert_eq!(picker_selection_at(Some("bad"), (2026, 1), (2026, 1, 5)), Some((1, 5)));
    assert_eq!(picker_selection_at(None, (2026, 2), (2026, 1, 5)), None);
}

#[test]
fn usage_content_follows_loading_rows_and_filter() {
    let mut ws = UsageState::new();
    assert_eq!(usage_content(&ws), UsageContent::NoConversations);
    ws.set_loading(true);
    assert_eq!(usage_content(&ws), UsageContent::Loading);
    let meta = ConversationMeta { path: "/a.jsonl".into(), title: "a".into(), modified_ms: 0, agent: AgentKind::Claude };
    let usage = ConversationUsage { tokens_in: 5, tokens_out: 1, tokens_cache_read: 2, tokens_cache_write: 3, ..Default::default() };
    update(&mut ws, UsageMessage::Loaded(1, vec![(meta, usage)]));
    assert_eq!(usage_content(&ws), UsageContent::Overview);
    assert_eq!(project_token_total(ws.rows()), 11);
    update(&mut ws, UsageMessage::AgentFilterSet(Some(AgentKind::Opencode)));
    assert_eq!(usage_content(&ws), UsageContent::NoAgentData);
    update(&mut ws, UsageMessage::AgentFilterSet(Some(AgentKind::Claude)));
    assert_eq!(usage_content(&ws), UsageContent::AgentTrends(AgentKind::Claude));
    let s = overview_sections(&[], &[(AgentKind::Claude, 1)], &[], &[], 0);
    assert!(s.session_group && !s.token_group && s.agent_metrics && !s.daily_chart);
}

#[test]
fn gb18030_bitmap_faces_are_chosen_for_removal() {
    let faces: Vec<(u64, Vec<String>)> = vec![
        (1, vec!["PingFang SC".into()]),
        (2, vec!["GB18030 Bitmap".into()]),
        (3, vec!["Heiti".into(), "STHeiti GB18030".into()]),
        (4, vec![]),
        (5, vec!["GB1803".into()]),
    ];
    assert_eq!(poisoned_faces(&faces), vec![2, 3]);
    assert!(!is_poisoned_face(&[]));
    assert_eq!(CODE_FONT_FAMILY, "JetBrains Mono");
}

#[test]
fn host_file_lies_in_the_project_dozer_dir() {
    assert_eq!(hosts_path("/repo"), "/repo/.dozer/ssh_hosts.json");
    assert_eq!(hosts_path("/repo/"), "/repo/.dozer/ssh_hosts.json");
    assert_eq!(hosts_path(""), ".dozer/ssh_hosts.json");
    let std_path = std::path::Path::new("/a b/c").join(".dozer").join("ssh_hosts.json");
    assert_eq!(hosts_path("/a b/c"), std_path.to_string_lossy());
}

#[test]
fn new_task_highlight_ends_exactly_on_time() {
    let mut ws = dozer_app::todo_state::WorkspaceState::<()>::new();
    ws.start_flash(0, 1000);
    assert_eq!(ws.selected_row(), Some(0));
    assert!(ws.take_scroll_to_top());
    assert!(!ws.take_scroll_to_top());
    assert_eq!(ws.next_flash_wake(1500), Some(1500));
    ws.advance_flash(2999);
    assert_eq!(ws.selected_row(), Some(0));
    assert_eq!(ws.next_flash_wake(3000), None);
    ws.advance_flash(3000);
    assert_eq!(ws.selected_row(), None);
    assert_eq!(ws.next_flash_wake(3000), None);
}

#[test]
fn status_filter_menu_ticks_the_filter_in_force() {
    let menu = status_filter_menu(StatusFilter::Status(TodoState::Done));
    let labels: Vec<&str> = menu.iter().map(|(_, l)| l.as_str()).collect();
    assert_eq!(labels, vec!["  全部", "  待办", "  进行中", "  搁置", "✓ 已完成"]);
    assert_eq!(menu[0].0, StatusFilter::All);
    assert_eq!(menu[2].0, StatusFilter::Status(TodoState::InProgress));
    let menu = status_filter_menu(StatusFilter::All);
    assert_eq!(menu[0].1, "✓ 全部");
}

#[test]
fn legend_percentages_are_truncated() {
    let share = vec![(AgentKind::Claude, 1u64), (AgentKind::Codebuddy, 1), (AgentKind::V8agent, 1)];
    assert_eq!(share_percentages(&share), vec![33, 33, 33]);
    assert_eq!(share_percentages(&[(AgentKind::Claude, 0)]), vec![0]);
    let big = vec![(AgentKind::Claude, u64::MAX / 2), (AgentKind::Opencode, 10)];
    assert_eq!(share_percentages(&big), vec![0, 0]);
}

#[test]
fn agent_filter_column_counts_conversations_per_agent() {
    let row = |agent: AgentKind| {
        (
            ConversationMeta { path: "/x.jsonl".into(), title: "x".into(), modified_ms: 0, agent },
            ConversationUsage::default(),
        )
    };
    let rows = vec![row(AgentKind::V8agent), row(AgentKind::Claude), row(AgentKind::V8agent), row(AgentKind::Codex)];
    let entries = agent_filter_entries(&rows, Some(AgentKind::V8agent));
    assert_eq!(
        entries,
        vec![
            AgentFilterEntry { agent: None, count: 4, active: false },
            AgentFilterEntry { agent: Some(AgentKind::Claude), count: 1, active: false },
            AgentFilterEntry { agent: Some(AgentKind::V8agent), count: 2, active: true },
        ]
    );
}

#[test]
fn terminal_session_texts_of_a_host() {
    let labels = session_labels(&host("h1"));
    assert_eq!(labels.id, "ssh:h1");
    assert!(labels.name.starts_with("ssh: "));
    assert_eq!(labels.name, "ssh: box-h1");
    assert_eq!(labels.command, "ssh ops@10.1.2.3:2200");
}
