use dozer_app::agent::AgentKind;
use dozer_app::chart::{grid_ticks, nice_tick_step};
use dozer_app::usage::{
    agent_cache_token_share, agent_io_token_share, agent_session_share, agent_token_share,
    agent_turn_share, agents_present, aggregate, cache_trend, civil_from_days,
    daily_totals_by_agent, filter_rows_by_agent, io_trend, session_round_trend, update,
    ConversationMeta, ConversationUsage, DayAgentTotals, Message, ProjectUsageTotals,
    WorkspaceState,
};

fn sample_usage(files: &[&str]) -> ConversationUsage {
    ConversationUsage {
        turns: 2,
        tool_calls: 3,
        mutating_tool_calls: 1,
        files_touched: files.iter().map(|s| s.to_string()).collect(),
        tokens_in: 10,
        tokens_out: 2,
        tokens_cache_read: 1,
        tokens_cache_write: 1,
    }
}

fn meta(agent: AgentKind, title: &str) -> ConversationMeta {
    ConversationMeta {
        path: format!("/{title}.jsonl"),
        title: title.to_string(),
        modified_ms: 0,
        agent,
    }
}

fn meta_at(agent: AgentKind, ms: u64) -> ConversationMeta {
    ConversationMeta {
        path: format!("/{ms}.jsonl"),
        title: String::new(),
        modified_ms: ms,
        agent,
    }
}

fn usage_with_tokens(input: u64) -> ConversationUsage {
    ConversationUsage {
        tokens_in: input,
        ..Default::default()
    }
}

fn usage_with_turns(turns: u32) -> ConversationUsage {
    ConversationUsage {
        turns,
        ..Default::default()
    }
}

fn total_for(day: &DayAgentTotals, agent: AgentKind) -> u64 {
    day.totals
        .iter()
        .find(|(a, _)| *a == agent)
        .map(|(_, v)| *v)
        .unwrap_or(0)
}

#[test]
fn mod_nice_tick_step_rounds_to_1_2_5_family() {
    assert_eq!(nice_tick_step(7, 4), 2);
    assert_eq!(nice_tick_step(42, 4), 20);
    assert_eq!(nice_tick_step(1, 4), 1);
}

#[test]
fn mod_grid_ticks_stops_at_max_and_never_empty() {
    assert_eq!(grid_ticks(0), Vec::<u64>::new());
    assert_eq!(grid_ticks(7), vec![2, 4, 6]);
    assert_eq!(grid_ticks(1), vec![1]);
}

#[test]
fn mod_aggregate_sums_fields_and_dedups_files_across_conversations() {
    let rows = [
        sample_usage(&["/a.rs", "/b.rs"]),
        sample_usage(&["/a.rs", "/c.rs"]),
    ];
    let totals = aggregate(&rows);
    assert_eq!(totals.conversation_count, 2);
    assert_eq!(totals.turns, 4);
    assert_eq!(totals.tool_calls, 6);
    assert_eq!(totals.mutating_tool_calls, 2);
    assert_eq!(totals.files_touched, 3, "/a.rs 在两个会话里都出现,只算一次");
    assert_eq!(totals.tokens_in, 20);
    assert_eq!(totals.tokens_out, 4);
    assert_eq!(totals.tokens_cache_read, 2);
    assert_eq!(totals.tokens_cache_write, 2);
}

#[test]
fn mod_aggregate_empty_slice_is_all_zero() {
    assert_eq!(aggregate(&[]), ProjectUsageTotals::default());
}

#[test]
fn mod_civil_from_days_known_epoch_dates() {
    assert_eq!(civil_from_days(0), (1970, 1, 1));
    assert_eq!(civil_from_days(20672), (2026, 8, 7));
}

#[test]
fn mod_daily_totals_by_agent_buckets_by_day_and_sums_per_agent() {
    let day0_ms = 20_672u64 * 86_400_000;
    let rows = vec![
        (meta_at(AgentKind::Claude, day0_ms), usage_with_tokens(10)),
        (meta_at(AgentKind::Claude, day0_ms + 3_600_000), usage_with_tokens(5)),
        (meta_at(AgentKind::Codebuddy, day0_ms + 1000), usage_with_tokens(2)),
        (meta_at(AgentKind::Opencode, day0_ms + 86_400_000), usage_with_tokens(7)),
    ];
    let days = daily_totals_by_agent(&rows);
    assert_eq!(days.len(), 2, "只返回实际有数据的两天,不补空天占位");
    assert_eq!(days[0].day_index, 20_672);
    assert_eq!(
        total_for(&days[0], AgentKind::Claude),
        15,
        "同一天同一 agent 两条会话的 token 要累加"
    );
    assert_eq!(total_for(&days[0], AgentKind::Codebuddy), 2);
    assert_eq!(
        total_for(&days[0], AgentKind::Opencode),
        0,
        "Opencode 这个项目里用过(次日有),当天没用则该 agent 那天是 0,不是不出现"
    );
    assert_eq!(days[1].day_index, 20_673);
    assert_eq!(total_for(&days[1], AgentKind::Opencode), 7);
    assert_eq!(days[0].label, "08/07");
}

#[test]
fn mod_daily_totals_by_agent_only_includes_agents_actually_used_in_project() {
    let rows = vec![(meta_at(AgentKind::Claude, 0), usage_with_tokens(10))];
    let days = daily_totals_by_agent(&rows);
    assert_eq!(days.len(), 1);
    assert_eq!(
        days[0].totals,
        vec![(AgentKind::Claude, 10)],
        "只应该出现这一个 agent,不该混进其他 agent 的 0 值占位"
    );
}

#[test]
fn mod_daily_totals_by_agent_includes_v8agent() {
    let rows = vec![(meta_at(AgentKind::V8agent, 0), usage_with_tokens(3))];
    let days = daily_totals_by_agent(&rows);
    assert_eq!(days.len(), 1);
    assert_eq!(total_for(&days[0], AgentKind::V8agent), 3);
}

#[test]
fn mod_daily_totals_ignores_agents_without_dedicated_bucket() {
    let rows = vec![(meta_at(AgentKind::Codex, 0), usage_with_tokens(99))];
    let days = daily_totals_by_agent(&rows);
    assert!(days.is_empty(), "没有任何已知 agent 有数据时不该产出天记录");
}

#[test]
fn mod_daily_totals_by_agent_keeps_only_most_recent_7_days() {
    let rows: Vec<_> = (0..20)
        .map(|i| {
            (
                meta_at(AgentKind::Claude, (20_668 + i) as u64 * 86_400_000),
                usage_with_tokens(1),
            )
        })
        .collect();
    let days = daily_totals_by_agent(&rows);
    assert_eq!(days.len(), 7, "超过 7 天的历史只保留最近 7 天");
    assert_eq!(days.last().unwrap().day_index, 20_687, "最后一天是最新的那天");
    assert_eq!(days.first().unwrap().day_index, 20_681);
}

#[test]
fn mod_agent_token_share_sums_four_token_fields_per_agent_and_skips_absent_agents() {
    let rows = vec![
        (meta(AgentKind::Claude, "a"), usage_with_tokens(10)),
        (meta(AgentKind::Claude, "b"), usage_with_tokens(5)),
        (meta(AgentKind::Codebuddy, "c"), usage_with_tokens(3)),
    ];
    let share = agent_token_share(&rows);
    assert_eq!(share, vec![(AgentKind::Claude, 15), (AgentKind::Codebuddy, 3)]);
}

#[test]
fn mod_agent_token_share_includes_v8agent() {
    let rows = vec![(meta(AgentKind::V8agent, "a"), usage_with_tokens(7))];
    let share = agent_token_share(&rows);
    assert_eq!(share, vec![(AgentKind::V8agent, 7)]);
}

#[test]
fn mod_agents_present_returns_used_agents_in_fixed_order() {
    let rows = vec![
        (meta(AgentKind::Codebuddy, "a"), usage_with_tokens(1)),
        (meta(AgentKind::Claude, "b"), usage_with_tokens(1)),
        (meta(AgentKind::V8agent, "c"), usage_with_tokens(1)),
    ];
    assert_eq!(
        agents_present(&rows),
        vec![AgentKind::Claude, AgentKind::Codebuddy, AgentKind::V8agent]
    );
}

#[test]
fn mod_agents_present_ignores_agents_without_dedicated_bucket() {
    let rows = vec![(meta(AgentKind::Codex, "a"), usage_with_tokens(1))];
    assert_eq!(agents_present(&rows), Vec::new());
}

#[test]
fn mod_filter_rows_by_agent_none_keeps_everything() {
    let rows = vec![
        (meta(AgentKind::Claude, "a"), usage_with_tokens(1)),
        (meta(AgentKind::Codebuddy, "b"), usage_with_tokens(1)),
    ];
    assert_eq!(filter_rows_by_agent(&rows, None), rows);
}

#[test]
fn mod_filter_rows_by_agent_some_keeps_only_that_agent() {
    let rows = vec![
        (meta(AgentKind::Claude, "a"), usage_with_tokens(1)),
        (meta(AgentKind::Codebuddy, "b"), usage_with_tokens(2)),
        (meta(AgentKind::Claude, "c"), usage_with_tokens(3)),
    ];
    let filtered = filter_rows_by_agent(&rows, Some(AgentKind::Claude));
    assert_eq!(filtered.len(), 2);
    assert!(filtered.iter().all(|(m, _)| m.agent == AgentKind::Claude));
}

#[test]
fn mod_agent_turn_share_sums_human_turns_per_agent_and_skips_empty() {
    let rows = vec![
        (meta(AgentKind::Claude, "a"), usage_with_turns(3)),
        (meta(AgentKind::Claude, "b"), usage_with_turns(2)),
        (meta(AgentKind::Codebuddy, "c"), usage_with_turns(5)),
        (meta(AgentKind::Opencode, "d"), usage_with_turns(0)),
    ];
    let share = agent_turn_share(&rows);
    assert_eq!(share, vec![(AgentKind::Claude, 5), (AgentKind::Codebuddy, 5)]);
}

#[test]
fn mod_agent_turn_share_includes_v8agent() {
    let rows = vec![(meta(AgentKind::V8agent, "a"), usage_with_turns(4))];
    let share = agent_turn_share(&rows);
    assert_eq!(share, vec![(AgentKind::V8agent, 4)]);
}

#[test]
fn mod_loaded_clears_loading_and_stores_rows() {
    let mut ws_state = WorkspaceState::default();
    ws_state.set_loading(true);
    let rows = vec![(
        meta(AgentKind::Claude, "a"),
        ConversationUsage {
            turns: 3,
            ..Default::default()
        },
    )];
    update(&mut ws_state, Message::Loaded(1, rows.clone()));
    assert!(!ws_state.loading());
    assert_eq!(ws_state.rows(), rows.as_slice());
}

#[test]
fn agent_session_share_counts_one_per_conversation_including_zero_turn() {
    let rows = vec![
        (meta(AgentKind::Claude, "a"), usage_with_turns(3)),
        (meta(AgentKind::Claude, "b"), usage_with_turns(0)),
        (meta(AgentKind::Codebuddy, "c"), usage_with_turns(1)),
    ];
    assert_eq!(
        agent_turn_share(&rows),
        vec![(AgentKind::Claude, 3), (AgentKind::Codebuddy, 1)]
    );
    assert_eq!(
        agent_session_share(&rows),
        vec![(AgentKind::Claude, 2), (AgentKind::Codebuddy, 1)]
    );
}

#[test]
fn agent_io_cache_shares_keep_io_and_cache_separate() {
    let usage = |io: u64, cache: u64| ConversationUsage {
        tokens_in: io,
        tokens_out: io,
        tokens_cache_read: cache,
        tokens_cache_write: cache,
        ..Default::default()
    };
    let rows = vec![
        (meta(AgentKind::Claude, "a"), usage(10, 4)),
        (meta(AgentKind::Claude, "b"), usage(1, 1)),
        (meta(AgentKind::V8agent, "c"), usage(0, 3)),
    ];
    assert_eq!(agent_io_token_share(&rows), vec![(AgentKind::Claude, 22)]);
    assert_eq!(
        agent_cache_token_share(&rows),
        vec![(AgentKind::Claude, 10), (AgentKind::V8agent, 6)]
    );
}

#[test]
fn session_round_trend_zero_fills_full_window_only_target_agent() {
    let today = 20_672i64;
    let ms = |day: i64| (day as u64) * 86_400_000;
    let rows = vec![
        (
            meta_at(AgentKind::Claude, ms(today)),
            ConversationUsage { turns: 2, ..Default::default() },
        ),
        (
            meta_at(AgentKind::Claude, ms(today - 13)),
            ConversationUsage { turns: 4, ..Default::default() },
        ),
        (
            meta_at(AgentKind::Codebuddy, ms(today)),
            ConversationUsage { turns: 9, ..Default::default() },
        ),
    ];
    let trend = session_round_trend(&rows, AgentKind::Claude, today);
    assert_eq!(trend.len(), 15);
    assert_eq!(trend[0].day_index, today - 14, "最左应正好是窗口首日(0 值)");
    assert_eq!(trend[0].values, vec![0, 0]);
    let earlier = &trend[(today - 13 - (today - 14)) as usize];
    assert_eq!(earlier.day_index, today - 13);
    assert_eq!(earlier.values, vec![1, 4]);
    let last = trend.last().unwrap();
    assert_eq!(last.day_index, today);
    assert_eq!(last.values, vec![1, 2]);
}

#[test]
fn io_and_cache_trend_share_window_but_split_fields() {
    let today = 20_672i64;
    let ms = |day: i64| (day as u64) * 86_400_000;
    let rows = vec![(meta_at(AgentKind::Claude, ms(today)), sample_usage(&[]))];
    let io = io_trend(&rows, AgentKind::Claude, today);
    let cache = cache_trend(&rows, AgentKind::Claude, today);
    assert_eq!(io.len(), 15, "Input/Output 看近 15 天");
    assert_eq!(
        cache.len(),
        15,
        "Cache read/write 统一改成近 15 天,跟 Input/Output 同口径"
    );
    assert_eq!(io.last().unwrap().values, vec![10, 2]);
    assert_eq!(cache.last().unwrap().values, vec![1, 1]);
}

#[test]
fn window_axis_is_self_contained_when_recent_days_idle() {
    let today = 20_672i64;
    let ms = |day: i64| (day as u64) * 86_400_000;
    let rows = vec![(
        meta_at(AgentKind::Claude, ms(today - 14)),
        ConversationUsage { turns: 1, ..Default::default() },
    )];
    let trend = session_round_trend(&rows, AgentKind::Claude, today);
    assert_eq!(trend.len(), 15);
    assert_eq!(trend[0].values, vec![1, 1], "最旧天数据落在窗口最左");
    assert_eq!(trend.last().unwrap().values, vec![0, 0], "今天无活动但保留占位");
}
