//! What the content column of the usage panel shows: a placeholder, the trends
//! of one agent, or the all-agent overview, and which of its sections appear.
use vstd::prelude::*;
use crate::agent::{agent_order, AgentKind};
use crate::usage::{agents_present, present_of, lemma_share_sum_nonneg, rows_of_agent, rows_view, share_sum, share_total, ConversationMeta, ConversationUsage, UsageView, WorkspaceState};

verus! {

/// What the content column shows.
#[derive(Debug, Clone, Copy, PartialEq, Eq, Structural)]
pub enum UsageContent {
    /// A refresh is running.
    Loading,
    /// The project has no agent conversation.
    NoConversations,
    /// The picked agent has no conversation in this project.
    NoAgentData,
    /// The project summary of the picked agent and its day trends.
    AgentTrends(AgentKind),
    /// The project summary, the per-agent shares and the daily totals of all
    /// agents.
    Overview,
}

/// The content for a panel that is `loading`, holds `rows` and is narrowed to
/// `filter`.
pub open spec fn content_of(loading: bool, rows: Seq<(ConversationMeta, UsageView)>, filter: Option<AgentKind>) -> UsageContent {
    if loading {
        UsageContent::Loading
    } else if rows.len() == 0 {
        UsageContent::NoConversations
    } else {
        match filter {
            None => UsageContent::Overview,
            Some(agent) => if rows_of_agent(rows, agent).len() == 0 {
                UsageContent::NoAgentData
            } else {
                UsageContent::AgentTrends(agent)
            },
        }
    }
}

/// Whether some row belongs to `agent`.
fn has_rows_of(rows: &[(ConversationMeta, ConversationUsage)], agent: AgentKind) -> (r: bool)
    ensures
        r == (rows_of_agent(rows_view(rows@), agent).len() > 0),
{
    let ghost vs = rows_view(rows@);
    let mut i: usize = 0;
    while i < rows.len()
        invariant
            i <= rows@.len(),
            vs == rows_view(rows@),
            forall|k: int| 0 <= k < i ==> (#[trigger] rows@[k]).0.agent != agent,
        decreases rows.len() - i,
    {
        if rows[i].0.agent == agent {
            proof {
                let p = |q: (ConversationMeta, UsageView)| q.0.agent == agent;
                assert(p(vs[i as int]));
                lemma_filter_nonempty(vs, p, i as int);
            }
            return true;
        }
        i = i + 1;
    }
    proof {
        let p = |q: (ConversationMeta, UsageView)| q.0.agent == agent;
        assert forall|k: int| 0 <= k < vs.len() implies !p(#[trigger] vs[k]) by {
            assert(vs[k].0 == rows@[k].0);
        }
        lemma_filter_empty(vs, p);
    }
    false
}

proof fn lemma_filter_nonempty<T>(s: Seq<T>, p: spec_fn(T) -> bool, i: int)
    requires
        0 <= i < s.len(),
        p(s[i]),
    ensures
        s.filter(p).len() > 0,
    decreases s.len(),
{
    reveal_with_fuel(Seq::filter, 1);
    if i < s.len() - 1 {
        lemma_filter_nonempty(s.drop_last(), p, i);
        assert(s.drop_last()[i] == s[i]);
    }
}

proof fn lemma_filter_empty<T>(s: Seq<T>, p: spec_fn(T) -> bool)
    requires
        forall|k: int| 0 <= k < s.len() ==> !p(#[trigger] s[k]),
    ensures
        s.filter(p).len() == 0,
    decreases s.len(),
{
    reveal_with_fuel(Seq::filter, 1);
    if s.len() > 0 {
        assert forall|k: int| 0 <= k < s.drop_last().len() implies !p(#[trigger] s.drop_last()[k]) by {
            assert(s.drop_last()[k] == s[k]);
        }
        lemma_filter_empty(s.drop_last(), p);
    }
}

/// What the content column of `ws` shows: the loading placeholder while a
/// refresh runs, the empty placeholder without rows, for a picked agent its
/// trends or the placeholder saying it has no data here, else the overview.
pub fn usage_content(ws: &WorkspaceState) -> (r: UsageContent)
    ensures
        r == content_of(ws.loading_spec(), rows_view(ws.rows_spec()), ws.agent_filter_spec()),
{
    if ws.loading() {
        return UsageContent::Loading;
    }
    let rows = ws.rows();
    if rows.len() == 0 {
        return UsageContent::NoConversations;
    }
    match ws.agent_filter() {
        None => UsageContent::Overview,
        Some(agent) => if has_rows_of(rows, agent) {
            UsageContent::AgentTrends(agent)
        } else {
            UsageContent::NoAgentData
        },
    }
}

/// The sections of the all-agent overview: the agent metric section with its
/// session/round group and its token group (each only when one of its two
/// shares is non-empty; the section only when a group is shown), and the
/// daily chart (only when there are days).
#[derive(Debug, Clone, Copy, PartialEq, Eq, Structural)]
pub struct OverviewSections {
    pub agent_metrics: bool,
    pub session_group: bool,
    pub token_group: bool,
    pub daily_chart: bool,
}

/// The overview sections for the session, round, input/output and cache
/// shares and `day_count` charted days.
pub fn overview_sections(
    session: &[(AgentKind, u64)],
    turns: &[(AgentKind, u64)],
    io: &[(AgentKind, u64)],
    cache: &[(AgentKind, u64)],
    day_count: usize,
) -> (r: OverviewSections)
    ensures
        r.session_group == (session@.len() > 0 || turns@.len() > 0),
        r.token_group == (io@.len() > 0 || cache@.len() > 0),
        r.agent_metrics == (r.session_group || r.token_group),
        r.daily_chart == (day_count > 0),
{
    let session_group = session.len() > 0 || turns.len() > 0;
    let token_group = io.len() > 0 || cache.len() > 0;
    OverviewSections {
        agent_metrics: session_group || token_group,
        session_group,
        token_group,
        daily_chart: day_count > 0,
    }
}

/// The four token counts of a conversation together.
pub open spec fn row_tokens(u: ConversationUsage) -> int {
    u.tokens_in + u.tokens_out + u.tokens_cache_read + u.tokens_cache_write
}

/// All tokens of `rows`: input, output, cache read and cache write.
pub open spec fn tokens_total(rows: Seq<(ConversationMeta, ConversationUsage)>) -> int
    decreases rows.len(),
{
    if rows.len() == 0 {
        0
    } else {
        tokens_total(rows.drop_last()) + row_tokens(rows.last().1)
    }
}

proof fn lemma_tokens_prefix(rows: Seq<(ConversationMeta, ConversationUsage)>, i: int)
    requires
        0 <= i <= rows.len(),
    ensures
        tokens_total(rows.subrange(0, i)) <= tokens_total(rows),
    decreases rows.len() - i,
{
    if i < rows.len() {
        lemma_tokens_prefix(rows, i + 1);
        assert(rows.subrange(0, i + 1).drop_last() =~= rows.subrange(0, i));
    } else {
        assert(rows.subrange(0, i) =~= rows);
    }
}

/// The banner total of the overview's token group: all tokens of all rows.
pub fn project_token_total(rows: &[(ConversationMeta, ConversationUsage)]) -> (r: u64)
    requires
        tokens_total(rows@) <= u64::MAX,
    ensures
        r == tokens_total(rows@),
{
    let mut total: u64 = 0;
    let mut i: usize = 0;
    while i < rows.len()
        invariant
            i <= rows@.len(),
            tokens_total(rows@) <= u64::MAX,
            total == tokens_total(rows@.subrange(0, i as int)),
        decreases rows.len() - i,
    {
        proof {
            lemma_tokens_prefix(rows@, i + 1);
            assert(rows@.subrange(0, i + 1).drop_last() =~= rows@.subrange(0, i as int));
        }
        let u = &rows[i].1;
        total = total + u.tokens_in + u.tokens_out + u.tokens_cache_read + u.tokens_cache_write;
        i = i + 1;
    }
    assert(rows@.subrange(0, rows@.len() as int) =~= rows@);
    total
}


/// The percentage a legend entry shows for `value` out of `total`: the
/// truncated integer quotient, 0 when the total is 0 or `value * 100` leaves
/// `u64`.
pub open spec fn percent_of(value: int, total: int) -> int {
    if total == 0 || value * 100 > u64::MAX { 0 } else { (value * 100) / total }
}

/// The percentages of the entries of a share.
pub fn share_percentages(share: &[(AgentKind, u64)]) -> (r: Vec<u64>)
    requires
        share_sum(share@) <= u64::MAX,
    ensures
        r@.len() == share@.len(),
        forall|i: int| 0 <= i < r@.len() ==> #[trigger] r@[i] == percent_of(share@[i].1 as int, share_sum(share@)),
{
    let total = share_total(share);
    let mut r: Vec<u64> = Vec::new();
    let mut i: usize = 0;
    while i < share.len()
        invariant
            i <= share@.len(),
            total == share_sum(share@),
            r@.len() == i,
            forall|k: int| 0 <= k < i ==> #[trigger] r@[k] == percent_of(share@[k].1 as int, total as int),
        decreases share.len() - i,
    {
        let pct: u64 = match share[i].1.checked_mul(100) {
            Some(n) => if total == 0 { 0 } else { n / total },
            None => 0,
        };
        r.push(pct);
        i = i + 1;
    }
    r
}

/// The sum of the percentages of a share's entries out of `total`.
pub open spec fn percent_sum(share: Seq<(AgentKind, u64)>, total: int) -> int
    decreases share.len(),
{
    if share.len() == 0 {
        0
    } else {
        percent_sum(share.drop_last(), total) + percent_of(share.last().1 as int, total)
    }
}

proof fn lemma_floor_add(a: int, b: int, t: int)
    requires
        a >= 0,
        b >= 0,
        t > 0,
    ensures
        a / t + b / t <= (a + b) / t,
{
    vstd::arithmetic::div_mod::lemma_fundamental_div_mod(a, t);
    vstd::arithmetic::div_mod::lemma_fundamental_div_mod(b, t);
    vstd::arithmetic::div_mod::lemma_fundamental_div_mod(a + b, t);
    vstd::arithmetic::div_mod::lemma_mod_bound(a, t);
    vstd::arithmetic::div_mod::lemma_mod_bound(b, t);
    vstd::arithmetic::div_mod::lemma_mod_bound(a + b, t);
    let qa = a / t;
    let qb = b / t;
    let q = (a + b) / t;
    assert(qa + qb <= q) by (nonlinear_arith)
        requires
            a == t * qa + a % t,
            b == t * qb + b % t,
            a + b == t * q + (a + b) % t,
            0 <= a % t < t,
            0 <= b % t < t,
            0 <= (a + b) % t < t,
            t > 0;
}

proof fn lemma_percent_sum_bound(share: Seq<(AgentKind, u64)>, total: int)
    requires
        total > 0,
    ensures
        0 <= percent_sum(share, total) <= (100 * share_sum(share)) / total,
        share_sum(share) >= 0,
    decreases share.len(),
{
    if share.len() > 0 {
        let w = share.drop_last();
        let v = share.last().1 as int;
        lemma_percent_sum_bound(w, total);
        lemma_floor_add(100 * share_sum(w), 100 * v, total);
        assert(100 * share_sum(share) == 100 * share_sum(w) + 100 * v);
        assert(0 <= percent_of(v, total) <= (100 * v) / total) by {
            if !(v * 100 > u64::MAX) {
                assert(v * 100 == 100 * v);
            }
            vstd::arithmetic::div_mod::lemma_div_pos_is_pos(100 * v, total);
        }
    } else {
        assert((100 * share_sum(share)) / total == 0);
    }
}

/// The percentages a share's legend lists never add up to more than 100:
/// each is truncated, never rounded up.
pub proof fn law_percentages_never_exceed_100(share: Seq<(AgentKind, u64)>)
    ensures
        percent_sum(share, share_sum(share)) <= 100,
{
    let t = share_sum(share);
    lemma_share_sum_nonneg(share);
    if t > 0 {
        lemma_percent_sum_bound(share, t);
        assert((100 * t) / t == 100) by {
            vstd::arithmetic::div_mod::lemma_div_by_multiple(100, t);
            assert(100 * t == t * 100) by (nonlinear_arith);
        }
    } else {
        lemma_percent_sum_zero(share, t);
    }
}

proof fn lemma_percent_sum_zero(share: Seq<(AgentKind, u64)>, total: int)
    requires
        total == 0,
    ensures
        percent_sum(share, total) == 0,
    decreases share.len(),
{
    if share.len() > 0 {
        lemma_percent_sum_zero(share.drop_last(), total);
    }
}


/// How many of `rows` belong to `agent`.
fn count_rows_of(rows: &[(ConversationMeta, ConversationUsage)], agent: AgentKind) -> (r: usize)
    ensures
        r == rows_of_agent(rows_view(rows@), agent).len(),
{
    let ghost vs = rows_view(rows@);
    let ghost p = |q: (ConversationMeta, UsageView)| q.0.agent == agent;
    let mut n: usize = 0;
    let mut i: usize = 0;
    while i < rows.len()
        invariant
            i <= rows@.len(),
            vs == rows_view(rows@),
            p == (|q: (ConversationMeta, UsageView)| q.0.agent == agent),
            n == vs.subrange(0, i as int).filter(p).len(),
            n <= i,
        decreases rows.len() - i,
    {
        proof {
            reveal_with_fuel(Seq::filter, 1);
            assert(vs.subrange(0, i + 1).drop_last() =~= vs.subrange(0, i as int));
            assert(vs.subrange(0, i + 1).last() == vs[i as int]);
        }
        if rows[i].0.agent == agent {
            n = n + 1;
        }
        i = i + 1;
    }
    assert(vs.subrange(0, rows@.len() as int) =~= vs);
    n
}

/// One entry of the agent filter column: the agent it narrows to (`None`
/// for all agents), how many conversations that covers, and whether it is
/// the filter in force.
#[derive(Debug, Clone, Copy, PartialEq, Eq, Structural)]
pub struct AgentFilterEntry {
    pub agent: Option<AgentKind>,
    pub count: usize,
    pub active: bool,
}

/// The agent filter column for `rows` with `current` in force: "all agents"
/// with every conversation, then each charted agent used in the project, in
/// display order, with its conversations.
pub fn agent_filter_entries(rows: &[(ConversationMeta, ConversationUsage)], current: Option<AgentKind>) -> (r: Vec<AgentFilterEntry>)
    ensures
        r@.len() == present_of(rows@, agent_order()).len() + 1,
        r@[0] == (AgentFilterEntry { agent: None, count: rows@.len() as usize, active: current is None }),
        forall|k: int| 0 <= k < present_of(rows@, agent_order()).len() ==> #[trigger] r@[k + 1] == (AgentFilterEntry {
            agent: Some(present_of(rows@, agent_order())[k]),
            count: rows_of_agent(rows_view(rows@), present_of(rows@, agent_order())[k]).len() as usize,
            active: current == Some(present_of(rows@, agent_order())[k]),
        }),
{
    let present = agents_present(rows);
    let mut r: Vec<AgentFilterEntry> = Vec::new();
    r.push(AgentFilterEntry { agent: None, count: rows.len(), active: current.is_none() });
    let mut k: usize = 0;
    while k < present.len()
        invariant
            k <= present@.len(),
            present@ == present_of(rows@, agent_order()),
            r@.len() == k + 1,
            r@[0] == (AgentFilterEntry { agent: None, count: rows@.len() as usize, active: current is None }),
            forall|j: int| 0 <= j < k ==> #[trigger] r@[j + 1] == (AgentFilterEntry {
                agent: Some(present@[j]),
                count: rows_of_agent(rows_view(rows@), present@[j]).len() as usize,
                active: current == Some(present@[j]),
            }),
        decreases present.len() - k,
    {
        let a = present[k];
        let count = count_rows_of(rows, a);
        let active = match current {
            Some(c) => c == a,
            None => false,
        };
        r.push(AgentFilterEntry { agent: Some(a), count, active });
        k = k + 1;
    }
    r
}

} // verus!
