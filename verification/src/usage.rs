//! Usage statistics of agent conversations: per-project totals, per-agent
//! shares, daily per-agent token totals and per-agent trend windows.
use vstd::prelude::*;
use crate::agent::{AgentKind, agent_order, agent_order_vec};
use crate::calendar::civil_i64;
use crate::text::{chars_of, string_of, str_eq, two_digit_string, two_digits};

verus! {

/// One conversation (one transcript file) as the usage panel lists it.
#[derive(Debug, PartialEq)]
pub struct ConversationMeta {
    pub path: String,
    pub title: String,
    pub modified_ms: u64,
    pub agent: AgentKind,
}

impl Clone for ConversationMeta {
    fn clone(&self) -> (r: Self)
        ensures
            r == *self,
    {
        ConversationMeta {
            path: self.path.clone(),
            title: self.title.clone(),
            modified_ms: self.modified_ms,
            agent: self.agent,
        }
    }
}

/// Usage statistics of one conversation.
#[derive(Debug, PartialEq)]
pub struct ConversationUsage {
    pub turns: u32,
    pub tool_calls: u32,
    pub mutating_tool_calls: u32,
    pub files_touched: Vec<String>,
    pub tokens_in: u64,
    pub tokens_out: u64,
    pub tokens_cache_read: u64,
    pub tokens_cache_write: u64,
}

/// An element-wise copy of a list of strings.
pub fn clone_strings(v: &Vec<String>) -> (r: Vec<String>)
    ensures
        r@ == v@,
{
    let mut r: Vec<String> = Vec::new();
    let mut i: usize = 0;
    while i < v.len()
        invariant
            i <= v.len(),
            r@ == v@.subrange(0, i as int),
        decreases v.len() - i,
    {
        r.push(v[i].clone());
        i = i + 1;
        assert(r@ =~= v@.subrange(0, i as int));
    }
    assert(r@ =~= v@);
    r
}

/// The value of a `ConversationUsage`, with the touched files as a sequence.
pub struct UsageView {
    pub turns: u32,
    pub tool_calls: u32,
    pub mutating_tool_calls: u32,
    pub files_touched: Seq<String>,
    pub tokens_in: u64,
    pub tokens_out: u64,
    pub tokens_cache_read: u64,
    pub tokens_cache_write: u64,
}

impl View for ConversationUsage {
    type V = UsageView;

    open spec fn view(&self) -> UsageView {
        UsageView {
            turns: self.turns,
            tool_calls: self.tool_calls,
            mutating_tool_calls: self.mutating_tool_calls,
            files_touched: self.files_touched@,
            tokens_in: self.tokens_in,
            tokens_out: self.tokens_out,
            tokens_cache_read: self.tokens_cache_read,
            tokens_cache_write: self.tokens_cache_write,
        }
    }
}

/// A list of usage rows by value.
pub open spec fn rows_view(rows: Seq<(ConversationMeta, ConversationUsage)>) -> Seq<(ConversationMeta, UsageView)> {
    rows.map_values(|p: (ConversationMeta, ConversationUsage)| (p.0, p.1@))
}

impl Clone for ConversationUsage {
    fn clone(&self) -> (r: Self)
        ensures
            r@ == self@,
    {
        let files = clone_strings(&self.files_touched);
        ConversationUsage {
            turns: self.turns,
            tool_calls: self.tool_calls,
            mutating_tool_calls: self.mutating_tool_calls,
            files_touched: files,
            tokens_in: self.tokens_in,
            tokens_out: self.tokens_out,
            tokens_cache_read: self.tokens_cache_read,
            tokens_cache_write: self.tokens_cache_write,
        }
    }
}

impl Default for ConversationUsage {
    fn default() -> (r: Self)
        ensures
            r.turns == 0 && r.tool_calls == 0 && r.mutating_tool_calls == 0,
            r.files_touched@.len() == 0,
            r.tokens_in == 0 && r.tokens_out == 0,
            r.tokens_cache_read == 0 && r.tokens_cache_write == 0,
    {
        ConversationUsage {
            turns: 0,
            tool_calls: 0,
            mutating_tool_calls: 0,
            files_touched: Vec::new(),
            tokens_in: 0,
            tokens_out: 0,
            tokens_cache_read: 0,
            tokens_cache_write: 0,
        }
    }
}

/// Totals over all conversations of a project.
#[derive(Debug, Clone, Copy, PartialEq, Eq, Default)]
pub struct ProjectUsageTotals {
    pub conversation_count: u32,
    pub turns: u32,
    pub tool_calls: u32,
    pub mutating_tool_calls: u32,
    pub files_touched: u32,
    pub tokens_in: u64,
    pub tokens_out: u64,
    pub tokens_cache_read: u64,
    pub tokens_cache_write: u64,
}

/// Sum of `f` over `rows`.
pub open spec fn sum_by(rows: Seq<ConversationUsage>, f: spec_fn(ConversationUsage) -> int) -> int
    decreases rows.len(),
{
    if rows.len() == 0 {
        0
    } else {
        sum_by(rows.drop_last(), f) + f(rows.last())
    }
}

/// The distinct files touched by `rows` (by their text).
pub open spec fn files_of(rows: Seq<ConversationUsage>) -> Set<Seq<char>>
    decreases rows.len(),
{
    if rows.len() == 0 {
        Set::empty()
    } else {
        files_of(rows.drop_last()) + texts(rows.last().files_touched@).to_set()
    }
}

pub open spec fn turns_of(u: ConversationUsage) -> int { u.turns as int }
pub open spec fn tool_calls_of(u: ConversationUsage) -> int { u.tool_calls as int }
pub open spec fn mutating_of(u: ConversationUsage) -> int { u.mutating_tool_calls as int }
pub open spec fn tokens_in_of(u: ConversationUsage) -> int { u.tokens_in as int }
pub open spec fn tokens_out_of(u: ConversationUsage) -> int { u.tokens_out as int }
pub open spec fn cache_read_of(u: ConversationUsage) -> int { u.tokens_cache_read as int }
pub open spec fn cache_write_of(u: ConversationUsage) -> int { u.tokens_cache_write as int }

/// No field total of `rows` overflows its counter.
pub open spec fn totals_fit(rows: Seq<ConversationUsage>) -> bool {
    &&& sum_by(rows, |u| turns_of(u)) <= u32::MAX
    &&& sum_by(rows, |u| tool_calls_of(u)) <= u32::MAX
    &&& sum_by(rows, |u| mutating_of(u)) <= u32::MAX
    &&& sum_by(rows, |u| tokens_in_of(u)) <= u64::MAX
    &&& sum_by(rows, |u| tokens_out_of(u)) <= u64::MAX
    &&& sum_by(rows, |u| cache_read_of(u)) <= u64::MAX
    &&& sum_by(rows, |u| cache_write_of(u)) <= u64::MAX
}

/// What `aggregate` returns: counts and sums over `rows`, files counted once
/// however many conversations touched them.
pub open spec fn aggregate_spec(rows: Seq<ConversationUsage>) -> ProjectUsageTotals {
    ProjectUsageTotals {
        conversation_count: rows.len() as u32,
        turns: sum_by(rows, |u| turns_of(u)) as u32,
        tool_calls: sum_by(rows, |u| tool_calls_of(u)) as u32,
        mutating_tool_calls: sum_by(rows, |u| mutating_of(u)) as u32,
        files_touched: files_of(rows).len() as u32,
        tokens_in: sum_by(rows, |u| tokens_in_of(u)) as u64,
        tokens_out: sum_by(rows, |u| tokens_out_of(u)) as u64,
        tokens_cache_read: sum_by(rows, |u| cache_read_of(u)) as u64,
        tokens_cache_write: sum_by(rows, |u| cache_write_of(u)) as u64,
    }
}

proof fn lemma_sum_prefix_le(rows: Seq<ConversationUsage>, f: spec_fn(ConversationUsage) -> int, i: int)
    requires
        0 <= i <= rows.len(),
        forall|u: ConversationUsage| #[trigger] f(u) >= 0,
    ensures
        sum_by(rows.subrange(0, i), f) <= sum_by(rows, f),
    decreases rows.len() - i,
{
    if i < rows.len() {
        assert(rows.drop_last().subrange(0, i) =~= rows.subrange(0, i));
        lemma_sum_prefix_le(rows.drop_last(), f, i);
        assert(f(rows.last()) >= 0);
    } else {
        assert(rows.subrange(0, i) =~= rows);
    }
}

proof fn lemma_sum_step(rows: Seq<ConversationUsage>, f: spec_fn(ConversationUsage) -> int, i: int)
    requires
        0 <= i < rows.len(),
    ensures
        sum_by(rows.subrange(0, i + 1), f) == sum_by(rows.subrange(0, i), f) + f(rows[i]),
{
    assert(rows.subrange(0, i + 1).drop_last() =~= rows.subrange(0, i));
}

/// The texts of a list of strings.
pub open spec fn texts(v: Seq<String>) -> Seq<Seq<char>> {
    v.map_values(|x: String| x@)
}

/// Whether `s` (by text) is in `v`.
fn contains_string(v: &Vec<String>, s: &String) -> (r: bool)
    ensures
        r == texts(v@).contains(s@),
{
    let mut i: usize = 0;
    while i < v.len()
        invariant
            i <= v.len(),
            forall|k: int| 0 <= k < i ==> v@[k]@ != s@,
        decreases v.len() - i,
    {
        if str_eq(v[i].as_str(), s.as_str()) {
            assert(texts(v@)[i as int] == s@);
            return true;
        }
        i = i + 1;
    }
    proof {
        if texts(v@).contains(s@) {
            let k = choose|k: int| 0 <= k < v@.len() && #[trigger] texts(v@)[k] == s@;
            assert(v@[k]@ == s@);
        }
    }
    false
}

/// `aggregate`: the project totals of `rows`.
pub fn aggregate(rows: &[ConversationUsage]) -> (r: ProjectUsageTotals)
    requires
        totals_fit(rows@),
    ensures
        r == aggregate_spec(rows@),
{
    let mut seen: Vec<String> = Vec::new();
    let mut totals = ProjectUsageTotals {
        conversation_count: rows.len() as u32,
        turns: 0,
        tool_calls: 0,
        mutating_tool_calls: 0,
        files_touched: 0,
        tokens_in: 0,
        tokens_out: 0,
        tokens_cache_read: 0,
        tokens_cache_write: 0,
    };
    let mut i: usize = 0;
    while i < rows.len()
        invariant
            i <= rows.len(),
            totals_fit(rows@),
            totals.conversation_count == rows@.len() as u32,
            totals.files_touched == 0,
            totals.turns == sum_by(rows@.subrange(0, i as int), |u| turns_of(u)),
            totals.tool_calls == sum_by(rows@.subrange(0, i as int), |u| tool_calls_of(u)),
            totals.mutating_tool_calls == sum_by(rows@.subrange(0, i as int), |u| mutating_of(u)),
            totals.tokens_in == sum_by(rows@.subrange(0, i as int), |u| tokens_in_of(u)),
            totals.tokens_out == sum_by(rows@.subrange(0, i as int), |u| tokens_out_of(u)),
            totals.tokens_cache_read == sum_by(rows@.subrange(0, i as int), |u| cache_read_of(u)),
            totals.tokens_cache_write == sum_by(rows@.subrange(0, i as int), |u| cache_write_of(u)),
            texts(seen@).no_duplicates(),
            texts(seen@).to_set() == files_of(rows@.subrange(0, i as int)),
        decreases rows.len() - i,
    {
        let r = &rows[i];
        proof {
            let p = rows@.subrange(0, i as int);
            let q = rows@.subrange(0, i + 1);
            lemma_sum_step(rows@, |u| turns_of(u), i as int);
            lemma_sum_step(rows@, |u| tool_calls_of(u), i as int);
            lemma_sum_step(rows@, |u| mutating_of(u), i as int);
            lemma_sum_step(rows@, |u| tokens_in_of(u), i as int);
            lemma_sum_step(rows@, |u| tokens_out_of(u), i as int);
            lemma_sum_step(rows@, |u| cache_read_of(u), i as int);
            lemma_sum_step(rows@, |u| cache_write_of(u), i as int);
            lemma_sum_prefix_le(rows@, |u| turns_of(u), i + 1);
            lemma_sum_prefix_le(rows@, |u| tool_calls_of(u), i + 1);
            lemma_sum_prefix_le(rows@, |u| mutating_of(u), i + 1);
            lemma_sum_prefix_le(rows@, |u| tokens_in_of(u), i + 1);
            lemma_sum_prefix_le(rows@, |u| tokens_out_of(u), i + 1);
            lemma_sum_prefix_le(rows@, |u| cache_read_of(u), i + 1);
            lemma_sum_prefix_le(rows@, |u| cache_write_of(u), i + 1);
        }
        totals.turns = totals.turns + r.turns;
        totals.tool_calls = totals.tool_calls + r.tool_calls;
        totals.mutating_tool_calls = totals.mutating_tool_calls + r.mutating_tool_calls;
        totals.tokens_in = totals.tokens_in + r.tokens_in;
        totals.tokens_out = totals.tokens_out + r.tokens_out;
        totals.tokens_cache_read = totals.tokens_cache_read + r.tokens_cache_read;
        totals.tokens_cache_write = totals.tokens_cache_write + r.tokens_cache_write;
        let ghost before = texts(seen@).to_set();
        let mut k: usize = 0;
        while k < r.files_touched.len()
            invariant
                k <= r.files_touched.len(),
                texts(seen@).no_duplicates(),
                texts(seen@).to_set() == before
                    + r.files_touched@.subrange(0, k as int).map_values(|x: String| x@).to_set(),
            decreases r.files_touched.len() - k,
        {
            let f = &r.files_touched[k];
            let ghost old_seen = texts(seen@);
            let present = contains_string(&seen, f);
            if !present {
                seen.push(f.clone());
                assert(texts(seen@) =~= old_seen.push(f@));
                proof {
                    old_seen.lemma_push_to_set_commute(f@);
                }
            }
            k = k + 1;
            proof {
                let prev = r.files_touched@.subrange(0, k - 1).map_values(|x: String| x@);
                let added = r.files_touched@.subrange(0, k as int).map_values(|x: String| x@);
                assert(added =~= prev.push(f@));
                prev.lemma_push_to_set_commute(f@);
                if present {
                    assert(old_seen.to_set().contains(f@));
                }
                assert(texts(seen@).to_set() =~= before + added.to_set());
            }
        }
        proof {
            let q = rows@.subrange(0, i + 1);
            assert(q.drop_last() =~= rows@.subrange(0, i as int));
            assert(r.files_touched@.subrange(0, r.files_touched@.len() as int) =~= r.files_touched@);
        }
        i = i + 1;
    }
    proof {
        assert(rows@.subrange(0, rows@.len() as int) =~= rows@);
        texts(seen@).unique_seq_to_set();
    }
    totals.files_touched = seen.len() as u32;
    totals
}

/// A per-conversation quantity summed by the agent share charts.
#[derive(Debug, Clone, Copy, PartialEq, Eq, Structural)]
pub enum ShareMetric {
    /// All four token fields.
    Tokens,
    /// Human turns.
    Turns,
    /// One per conversation.
    Sessions,
    /// Input plus output tokens.
    IoTokens,
    /// Cache read plus cache write tokens.
    CacheTokens,
}

/// The value `metric` takes on one conversation.
pub open spec fn metric_of(metric: ShareMetric, u: ConversationUsage) -> int {
    match metric {
        ShareMetric::Tokens => u.tokens_in + u.tokens_out + u.tokens_cache_read + u.tokens_cache_write,
        ShareMetric::Turns => u.turns as int,
        ShareMetric::Sessions => 1,
        ShareMetric::IoTokens => u.tokens_in + u.tokens_out,
        ShareMetric::CacheTokens => u.tokens_cache_read + u.tokens_cache_write,
    }
}

/// Sum of `metric` over the rows of agent `kind`.
pub open spec fn agent_total(rows: Seq<(ConversationMeta, ConversationUsage)>, kind: AgentKind, metric: ShareMetric) -> int
    decreases rows.len(),
{
    if rows.len() == 0 {
        0
    } else {
        agent_total(rows.drop_last(), kind, metric) + if rows.last().0.agent == kind {
            metric_of(metric, rows.last().1)
        } else {
            0
        }
    }
}

/// The per-agent totals of the charted agents never overflow `u64`.
pub open spec fn shares_fit(rows: Seq<(ConversationMeta, ConversationUsage)>, metric: ShareMetric) -> bool {
    forall|k: int| 0 <= k < 4 ==> agent_total(rows, #[trigger] agent_order()[k], metric) <= u64::MAX
}

/// The (agent, total) pairs of the agents in `order` whose total is positive.
pub open spec fn share_of(rows: Seq<(ConversationMeta, ConversationUsage)>, metric: ShareMetric, order: Seq<AgentKind>) -> Seq<(AgentKind, u64)>
    decreases order.len(),
{
    if order.len() == 0 {
        Seq::empty()
    } else {
        let rest = share_of(rows, metric, order.drop_last());
        let t = agent_total(rows, order.last(), metric);
        if t > 0 { rest.push((order.last(), t as u64)) } else { rest }
    }
}

proof fn lemma_agent_total_nonneg(rows: Seq<(ConversationMeta, ConversationUsage)>, kind: AgentKind, metric: ShareMetric, i: int)
    requires
        0 <= i <= rows.len(),
    ensures
        0 <= agent_total(rows.subrange(0, i), kind, metric) <= agent_total(rows, kind, metric),
    decreases rows.len() - i,
{
    if i < rows.len() {
        assert(rows.drop_last().subrange(0, i) =~= rows.subrange(0, i));
        lemma_agent_total_nonneg(rows.drop_last(), kind, metric, i);
    } else {
        assert(rows.subrange(0, i) =~= rows);
        lemma_agent_total_nonneg_full(rows, kind, metric);
    }
}

proof fn lemma_agent_total_nonneg_full(rows: Seq<(ConversationMeta, ConversationUsage)>, kind: AgentKind, metric: ShareMetric)
    ensures
        0 <= agent_total(rows, kind, metric),
    decreases rows.len(),
{
    if rows.len() > 0 {
        lemma_agent_total_nonneg_full(rows.drop_last(), kind, metric);
    }
}

/// The value of `metric` on one conversation (saturation never happens
/// under the callers' bounds).
fn metric_value(metric: ShareMetric, u: &ConversationUsage) -> (r: u64)
    requires
        metric_of(metric, *u) <= u64::MAX,
    ensures
        r == metric_of(metric, *u),
{
    match metric {
        ShareMetric::Tokens => u.tokens_in + u.tokens_out + u.tokens_cache_read + u.tokens_cache_write,
        ShareMetric::Turns => u.turns as u64,
        ShareMetric::Sessions => 1,
        ShareMetric::IoTokens => u.tokens_in + u.tokens_out,
        ShareMetric::CacheTokens => u.tokens_cache_read + u.tokens_cache_write,
    }
}

/// Sum of `metric` over the rows of agent `kind`.
fn agent_sum(rows: &[(ConversationMeta, ConversationUsage)], kind: AgentKind, metric: ShareMetric) -> (r: u64)
    requires
        agent_total(rows@, kind, metric) <= u64::MAX,
    ensures
        r == agent_total(rows@, kind, metric),
{
    let mut total: u64 = 0;
    let mut i: usize = 0;
    while i < rows.len()
        invariant
            i <= rows.len(),
            agent_total(rows@, kind, metric) <= u64::MAX,
            total == agent_total(rows@.subrange(0, i as int), kind, metric),
        decreases rows.len() - i,
    {
        proof {
            assert(rows@.subrange(0, i + 1).drop_last() =~= rows@.subrange(0, i as int));
            lemma_agent_total_nonneg(rows@, kind, metric, i + 1);
            lemma_agent_total_nonneg(rows@, kind, metric, i as int);
        }
        if rows[i].0.agent == kind {
            let v = metric_value(metric, &rows[i].1);
            total = total + v;
        }
        i = i + 1;
    }
    assert(rows@.subrange(0, rows@.len() as int) =~= rows@);
    total
}

/// `agent_metric_share`: for each charted agent in display order, its total
/// of `metric`, leaving out agents whose total is zero.
pub fn agent_metric_share(rows: &[(ConversationMeta, ConversationUsage)], metric: ShareMetric) -> (r: Vec<(AgentKind, u64)>)
    requires
        shares_fit(rows@, metric),
    ensures
        r@ == share_of(rows@, metric, agent_order()),
{
    let order = agent_order_vec();
    let mut out: Vec<(AgentKind, u64)> = Vec::new();
    let mut k: usize = 0;
    while k < order.len()
        invariant
            order@ == agent_order(),
            k <= order.len(),
            shares_fit(rows@, metric),
            out@ == share_of(rows@, metric, agent_order().subrange(0, k as int)),
        decreases order.len() - k,
    {
        let kind = order[k];
        assert(agent_total(rows@, agent_order()[k as int], metric) <= u64::MAX);
        let t = agent_sum(rows, kind, metric);
        if t > 0 {
            out.push((kind, t));
        }
        proof {
            assert(agent_order().subrange(0, k + 1).drop_last() =~= agent_order().subrange(0, k as int));
        }
        k = k + 1;
    }
    assert(agent_order().subrange(0, 4) =~= agent_order());
    out
}

/// Token totals (all four fields) per agent.
pub fn agent_token_share(rows: &[(ConversationMeta, ConversationUsage)]) -> (r: Vec<(AgentKind, u64)>)
    requires
        shares_fit(rows@, ShareMetric::Tokens),
    ensures
        r@ == share_of(rows@, ShareMetric::Tokens, agent_order()),
{
    agent_metric_share(rows, ShareMetric::Tokens)
}

/// Human turn totals per agent.
pub fn agent_turn_share(rows: &[(ConversationMeta, ConversationUsage)]) -> (r: Vec<(AgentKind, u64)>)
    requires
        shares_fit(rows@, ShareMetric::Turns),
    ensures
        r@ == share_of(rows@, ShareMetric::Turns, agent_order()),
{
    agent_metric_share(rows, ShareMetric::Turns)
}

/// Conversation counts per agent (a conversation with no turn counts too).
pub fn agent_session_share(rows: &[(ConversationMeta, ConversationUsage)]) -> (r: Vec<(AgentKind, u64)>)
    requires
        shares_fit(rows@, ShareMetric::Sessions),
    ensures
        r@ == share_of(rows@, ShareMetric::Sessions, agent_order()),
{
    agent_metric_share(rows, ShareMetric::Sessions)
}

/// Input plus output token totals per agent.
pub fn agent_io_token_share(rows: &[(ConversationMeta, ConversationUsage)]) -> (r: Vec<(AgentKind, u64)>)
    requires
        shares_fit(rows@, ShareMetric::IoTokens),
    ensures
        r@ == share_of(rows@, ShareMetric::IoTokens, agent_order()),
{
    agent_metric_share(rows, ShareMetric::IoTokens)
}

/// Cache read plus cache write token totals per agent.
pub fn agent_cache_token_share(rows: &[(ConversationMeta, ConversationUsage)]) -> (r: Vec<(AgentKind, u64)>)
    requires
        shares_fit(rows@, ShareMetric::CacheTokens),
    ensures
        r@ == share_of(rows@, ShareMetric::CacheTokens, agent_order()),
{
    agent_metric_share(rows, ShareMetric::CacheTokens)
}

/// Some row belongs to agent `kind`.
pub open spec fn agent_used(rows: Seq<(ConversationMeta, ConversationUsage)>, kind: AgentKind) -> bool {
    exists|i: int| 0 <= i < rows.len() && rows[i].0.agent == kind
}

/// The charted agents that occur in `rows`, in display order.
pub open spec fn present_of(rows: Seq<(ConversationMeta, ConversationUsage)>, order: Seq<AgentKind>) -> Seq<AgentKind>
    decreases order.len(),
{
    if order.len() == 0 {
        Seq::empty()
    } else {
        let rest = present_of(rows, order.drop_last());
        if agent_used(rows, order.last()) { rest.push(order.last()) } else { rest }
    }
}

/// `agents_present`: the charted agents used in `rows`, in display order.
pub fn agents_present(rows: &[(ConversationMeta, ConversationUsage)]) -> (r: Vec<AgentKind>)
    ensures
        r@ == present_of(rows@, agent_order()),
{
    let order = agent_order_vec();
    let mut out: Vec<AgentKind> = Vec::new();
    let mut k: usize = 0;
    while k < order.len()
        invariant
            order@ == agent_order(),
            k <= order.len(),
            out@ == present_of(rows@, agent_order().subrange(0, k as int)),
        decreases order.len() - k,
    {
        let kind = order[k];
        let mut found = false;
        let mut i: usize = 0;
        while i < rows.len()
            invariant
                i <= rows.len(),
                found == (exists|j: int| 0 <= j < i && rows@[j].0.agent == kind),
            decreases rows.len() - i,
        {
            if rows[i].0.agent == kind {
                found = true;
            }
            i = i + 1;
        }
        if found {
            out.push(kind);
        }
        proof {
            assert(agent_order().subrange(0, k + 1).drop_last() =~= agent_order().subrange(0, k as int));
        }
        k = k + 1;
    }
    assert(agent_order().subrange(0, 4) =~= agent_order());
    out
}

/// The rows of `agent`, by value, in order.
pub open spec fn rows_of_agent(rows: Seq<(ConversationMeta, UsageView)>, agent: AgentKind) -> Seq<(ConversationMeta, UsageView)> {
    rows.filter(|p: (ConversationMeta, UsageView)| p.0.agent == agent)
}

proof fn lemma_filter_push(rows: Seq<(ConversationMeta, UsageView)>, x: (ConversationMeta, UsageView), agent: AgentKind)
    ensures
        rows_of_agent(rows.push(x), agent) == if x.0.agent == agent {
            rows_of_agent(rows, agent).push(x)
        } else {
            rows_of_agent(rows, agent)
        },
{
    reveal_with_fuel(Seq::filter, 1);
    assert(rows.push(x).drop_last() =~= rows);
}

/// `filter_rows_by_agent`: copies of all rows for `None`, else of the rows of
/// that agent, in their order.
pub fn filter_rows_by_agent(rows: &[(ConversationMeta, ConversationUsage)], filter: Option<AgentKind>) -> (r: Vec<(ConversationMeta, ConversationUsage)>)
    ensures
        rows_view(r@) == match filter {
            None => rows_view(rows@),
            Some(agent) => rows_of_agent(rows_view(rows@), agent),
        },
{
    let mut out: Vec<(ConversationMeta, ConversationUsage)> = Vec::new();
    let mut i: usize = 0;
    while i < rows.len()
        invariant
            i <= rows.len(),
            rows_view(out@) == match filter {
                None => rows_view(rows@.subrange(0, i as int)),
                Some(agent) => rows_of_agent(rows_view(rows@.subrange(0, i as int)), agent),
            },
        decreases rows.len() - i,
    {
        let keep = match filter {
            None => true,
            Some(agent) => rows[i].0.agent == agent,
        };
        let ghost old_out = out@;
        let ghost x = (rows@[i as int].0, rows@[i as int].1@);
        proof {
            assert(rows_view(rows@.subrange(0, i + 1)) =~= rows_view(rows@.subrange(0, i as int)).push(x));
            match filter {
                Some(agent) => {
                    lemma_filter_push(rows_view(rows@.subrange(0, i as int)), x, agent);
                },
                None => {},
            }
        }
        if keep {
            let row = (rows[i].0.clone(), rows[i].1.clone());
            out.push(row);
            assert(rows_view(out@) =~= rows_view(old_out).push(x));
        }
        i = i + 1;
    }
    assert(rows@.subrange(0, rows@.len() as int) =~= rows@);
    out
}

/// How many of the most recent days `daily_totals_by_agent` keeps.
pub const DAILY_CHART_WINDOW_DAYS: usize = 7;

/// The UTC day index of a millisecond timestamp.
pub fn day_index_from_ms(ms: u64) -> (r: i64)
    ensures
        r == ms / 86_400_000,
{
    (ms / 86_400_000) as i64
}

/// Today's UTC day index from the system clock; whatever the clock reads,
/// the result is the day index of some millisecond timestamp.
pub fn today_day_index() -> (r: i64)
    ensures
        exists|ms: u64| r == #[trigger] crate::calendar::day_of_ms(ms as int),
{
    let ms = crate::calendar::unix_time_millis();
    let r = day_index_from_ms(ms);
    assert(r == crate::calendar::day_of_ms(ms as int));
    r
}

/// (year, month, day) of day `z` since 1970-01-01, the year as an `i32`.
pub fn civil_from_days(z: i64) -> (r: (i32, u32, u32))
    requires
        crate::calendar::civil_in_range(z as int),
    ensures
        r == ((civil_i64(z as int).0) as i32, civil_i64(z as int).1, civil_i64(z as int).2),
{
    let (y, m, d) = crate::calendar::civil_from_days(z);
    (y as i32, m, d)
}

/// "MM/DD" of day `z`.
pub open spec fn day_label(z: int) -> Seq<char> {
    two_digits(civil_i64(z).1 as nat) + seq!['/'] + two_digits(civil_i64(z).2 as nat)
}

/// The "MM/DD" label of day `z`.
pub fn day_label_string(z: i64) -> (r: String)
    requires
        crate::calendar::civil_in_range(z as int),
    ensures
        r@ == day_label(z as int),
{
    let (_y, m, d) = crate::calendar::civil_from_days(z);
    let mut cs = chars_of(two_digit_string(m as u64).as_str());
    cs.push('/');
    let mut ds = chars_of(two_digit_string(d as u64).as_str());
    cs.append(&mut ds);
    string_of(&cs)
}

/// Token totals of one day, one entry per project agent.
#[derive(Debug, Clone, PartialEq)]
pub struct DayAgentTotals {
    pub day_index: i64,
    pub label: String,
    pub totals: Vec<(AgentKind, u64)>,
}

/// The agents of a share, in order.
pub open spec fn share_agents(share: Seq<(AgentKind, u64)>) -> Seq<AgentKind> {
    share.map_values(|p: (AgentKind, u64)| p.0)
}

/// Tokens (all four fields) of the rows of agent `a` on day `day`.
pub open spec fn day_agent_total(rows: Seq<(ConversationMeta, ConversationUsage)>, day: int, a: AgentKind) -> int
    decreases rows.len(),
{
    if rows.len() == 0 {
        0
    } else {
        day_agent_total(rows.drop_last(), day, a) + if rows.last().0.agent == a && rows.last().0.modified_ms
            / 86_400_000 == day {
            metric_of(ShareMetric::Tokens, rows.last().1)
        } else {
            0
        }
    }
}

/// `day` is the day of some row of one of `agents`.
pub open spec fn has_day(rows: Seq<(ConversationMeta, ConversationUsage)>, agents: Seq<AgentKind>, day: int) -> bool {
    exists|i: int| 0 <= i < rows.len() && agents.contains(rows[i].0.agent) && #[trigger] (rows[i].0.modified_ms / 86_400_000) == day
}

/// What `daily_totals_by_agent` returns, given the project's agents: the most
/// recent days (at most `DAILY_CHART_WINDOW_DAYS`) on which one of them has a
/// conversation, oldest first, each with the token total of every project
/// agent on that day.
pub open spec fn daily_totals_ok(rows: Seq<(ConversationMeta, ConversationUsage)>, agents: Seq<AgentKind>, r: Seq<DayAgentTotals>) -> bool {
    &&& r.len() <= 7
    &&& forall|i: int, j: int| 0 <= i < j < r.len() ==> r[i].day_index < r[j].day_index
    &&& forall|i: int| 0 <= i < r.len() ==> has_day(rows, agents, #[trigger] r[i].day_index as int)
    &&& forall|d: int| has_day(rows, agents, d) ==> (exists|i: int| 0 <= i < r.len() && #[trigger] r[i].day_index == d)
        || (r.len() == 7 && d < r[0].day_index)
    &&& forall|i: int| 0 <= i < r.len() ==> (#[trigger] r[i]).label@ == day_label(r[i].day_index as int)
    &&& forall|i: int| 0 <= i < r.len() ==> (#[trigger] r[i]).totals@ == agents.map_values(
        |a: AgentKind| (a, day_agent_total(rows, r[i].day_index as int, a) as u64),
    )
}

proof fn lemma_day_total_le(rows: Seq<(ConversationMeta, ConversationUsage)>, day: int, a: AgentKind, i: int)
    requires
        0 <= i <= rows.len(),
    ensures
        0 <= day_agent_total(rows.subrange(0, i), day, a) <= agent_total(rows, a, ShareMetric::Tokens),
    decreases rows.len() - i,
{
    if i < rows.len() {
        assert(rows.drop_last().subrange(0, i) =~= rows.subrange(0, i));
        lemma_day_total_le(rows.drop_last(), day, a, i);
    } else {
        assert(rows.subrange(0, i) =~= rows);
        lemma_day_total_le_full(rows, day, a);
    }
}

proof fn lemma_day_total_le_full(rows: Seq<(ConversationMeta, ConversationUsage)>, day: int, a: AgentKind)
    ensures
        0 <= day_agent_total(rows, day, a) <= agent_total(rows, a, ShareMetric::Tokens),
    decreases rows.len(),
{
    if rows.len() > 0 {
        lemma_day_total_le_full(rows.drop_last(), day, a);
    }
}

/// Token total of agent `a` on day `day`.
fn day_agent_sum(rows: &[(ConversationMeta, ConversationUsage)], day: i64, a: AgentKind) -> (r: u64)
    requires
        agent_total(rows@, a, ShareMetric::Tokens) <= u64::MAX,
    ensures
        r == day_agent_total(rows@, day as int, a),
{
    let mut total: u64 = 0;
    let mut i: usize = 0;
    while i < rows.len()
        invariant
            i <= rows.len(),
            agent_total(rows@, a, ShareMetric::Tokens) <= u64::MAX,
            total == day_agent_total(rows@.subrange(0, i as int), day as int, a),
        decreases rows.len() - i,
    {
        proof {
            assert(rows@.subrange(0, i + 1).drop_last() =~= rows@.subrange(0, i as int));
            lemma_day_total_le(rows@, day as int, a, i + 1);
        }
        if rows[i].0.agent == a && day_index_from_ms(rows[i].0.modified_ms) == day {
            let v = metric_value(ShareMetric::Tokens, &rows[i].1);
            total = total + v;
        }
        i = i + 1;
    }
    assert(rows@.subrange(0, rows@.len() as int) =~= rows@);
    total
}

/// Inserts `x` into the strictly increasing `v`, keeping it strictly
/// increasing; nothing changes when `x` is already there.
fn insert_sorted(v: &mut Vec<i64>, x: i64)
    requires
        forall|i: int, j: int| 0 <= i < j < old(v).len() ==> old(v)[i] < old(v)[j],
    ensures
        forall|i: int, j: int| 0 <= i < j < final(v).len() ==> final(v)[i] < final(v)[j],
        forall|y: i64| final(v)@.contains(y) <==> (old(v)@.contains(y) || y == x),
{
    let mut p: usize = 0;
    while p < v.len() && v[p] < x
        invariant
            p <= v.len(),
            v@ == old(v)@,
            forall|i: int, j: int| 0 <= i < j < v.len() ==> v[i] < v[j],
            forall|k: int| 0 <= k < p ==> v[k] < x,
        decreases v.len() - p,
    {
        p = p + 1;
    }
    if p < v.len() && v[p] == x {
        assert(v@[p as int] == x);
        return;
    }
    let ghost before = v@;
    v.insert(p, x);
    proof {
        assert(p == before.len() || before[p as int] > x);
        assert forall|i: int, j: int| 0 <= i < j < v.len() implies v[i] < v[j] by {
            if j < p {
                assert(v[i] == before[i] && v[j] == before[j]);
            } else if i < p && j == p {
                assert(v[i] == before[i]);
            } else if i < p {
                assert(v[i] == before[i]);
                assert(v[j] == before[j - 1]);
            } else if i == p {
                assert(v[j] == before[j - 1]);
                assert(before[p as int] > x);
                if j - 1 > p {
                    assert(before[p as int] < before[j - 1]);
                }
            } else {
                assert(v[i] == before[i - 1] && v[j] == before[j - 1]);
            }
        }
        assert(before == old(v)@);
        assert forall|y: i64| #[trigger] v@.contains(y) <==> (before.contains(y) || y == x) by {
            if v@.contains(y) {
                let k = choose|k: int| 0 <= k < v.len() && v@[k] == y;
                if k < p {
                    assert(before[k] == y);
                } else if k > p {
                    assert(before[k - 1] == y);
                }
            }
            if before.contains(y) {
                let k = choose|k: int| 0 <= k < before.len() && before[k] == y;
                if k < p {
                    assert(v@[k] == y);
                } else {
                    assert(v@[k + 1] == y);
                }
            }
            if y == x {
                assert(v@[p as int] == x);
            }
        }
    }
}

/// `daily_totals_by_agent`: per-day token totals of the project's agents
/// (those of `agent_token_share`, in that order) over the most recent
/// `DAILY_CHART_WINDOW_DAYS` days with data, oldest first; empty when the
/// project used none of the charted agents.
pub fn daily_totals_by_agent(rows: &[(ConversationMeta, ConversationUsage)]) -> (r: Vec<DayAgentTotals>)
    requires
        shares_fit(rows@, ShareMetric::Tokens),
    ensures
        share_of(rows@, ShareMetric::Tokens, agent_order()).len() == 0 ==> r@.len() == 0,
        daily_totals_ok(rows@, share_agents(share_of(rows@, ShareMetric::Tokens, agent_order())), r@),
{
    let share = agent_token_share(rows);
    let ghost agents = share_agents(share@);
    let mut project_agents: Vec<AgentKind> = Vec::new();
    let mut k: usize = 0;
    while k < share.len()
        invariant
            k <= share.len(),
            project_agents@ == share_agents(share@.subrange(0, k as int)),
        decreases share.len() - k,
    {
        project_agents.push(share[k].0);
        k = k + 1;
        assert(project_agents@ =~= share_agents(share@.subrange(0, k as int)));
    }
    assert(share@.subrange(0, share@.len() as int) =~= share@);
    if project_agents.len() == 0 {
        return Vec::new();
    }
    proof {
        lemma_share_members(rows@, ShareMetric::Tokens, agent_order());
    }
    // the distinct days of the project agents' rows, increasing
    let mut days: Vec<i64> = Vec::new();
    let mut i: usize = 0;
    while i < rows.len()
        invariant
            i <= rows.len(),
            project_agents@ == agents,
            forall|a: int, b: int| 0 <= a < b < days.len() ==> days[a] < days[b],
            forall|d: i64| days@.contains(d) <==> exists|j: int| 0 <= j < i && agents.contains(rows@[j].0.agent)
                && #[trigger] (rows@[j].0.modified_ms / 86_400_000) == d,
        decreases rows.len() - i,
    {
        let mut member = false;
        let mut q: usize = 0;
        while q < project_agents.len()
            invariant
                i < rows.len(),
                q <= project_agents.len(),
                member == (exists|t: int| 0 <= t < q && project_agents@[t] == rows@[i as int].0.agent),
            decreases project_agents.len() - q,
        {
            if project_agents[q] == rows[i].0.agent {
                member = true;
            }
            q = q + 1;
        }
        let ghost old_days = days@;
        if member {
            let d = day_index_from_ms(rows[i].0.modified_ms);
            insert_sorted(&mut days, d);
        }
        i = i + 1;
        proof {
            assert forall|d: i64| days@.contains(d) <==> exists|j: int| 0 <= j < i && agents.contains(rows@[j].0.agent)
                && #[trigger] (rows@[j].0.modified_ms / 86_400_000) == d by {
                if days@.contains(d) && !old_days.contains(d) {
                    assert(agents.contains(rows@[i - 1].0.agent));
                    assert(rows@[i - 1].0.modified_ms / 86_400_000 == d);
                }
                if exists|j: int| 0 <= j < i && agents.contains(rows@[j].0.agent) && #[trigger] (rows@[j].0.modified_ms / 86_400_000) == d {
                    let j = choose|j: int| 0 <= j < i && agents.contains(rows@[j].0.agent) && #[trigger] (rows@[j].0.modified_ms / 86_400_000) == d;
                    if j == i - 1 {
                        assert(project_agents@.contains(rows@[j].0.agent));
                        let t = choose|t: int| 0 <= t < project_agents@.len() && project_agents@[t] == rows@[j].0.agent;
                        assert(member);
                    }
                }
            }
        }
    }
    let start: usize = if days.len() > DAILY_CHART_WINDOW_DAYS {
        days.len() - DAILY_CHART_WINDOW_DAYS
    } else {
        0
    };
    let mut out: Vec<DayAgentTotals> = Vec::new();
    let mut p: usize = start;
    while p < days.len()
        invariant
            start <= p <= days.len(),
            start == if days.len() > 7 { days.len() - 7 } else { 0 },
            project_agents@ == agents,
            forall|a: int, b: int| 0 <= a < b < days.len() ==> days[a] < days[b],
            forall|dd: i64| days@.contains(dd) <==> exists|j: int| 0 <= j < rows.len() && agents.contains(rows@[j].0.agent)
                && #[trigger] (rows@[j].0.modified_ms / 86_400_000) == dd,
            shares_fit(rows@, ShareMetric::Tokens),
            forall|t: int| 0 <= t < agents.len() ==> agent_total(rows@, #[trigger] agents[t], ShareMetric::Tokens) <= u64::MAX,
            out.len() == p - start,
            forall|a: int| 0 <= a < out.len() ==> (#[trigger] out[a]).day_index == days[start + a],
            forall|a: int| 0 <= a < out.len() ==> (#[trigger] out[a]).label@ == day_label(out[a].day_index as int),
            forall|a: int| 0 <= a < out.len() ==> (#[trigger] out[a]).totals@ == agents.map_values(
                |g: AgentKind| (g, day_agent_total(rows@, out[a].day_index as int, g) as u64),
            ),
        decreases days.len() - p,
    {
        let d = days[p];
        let mut totals: Vec<(AgentKind, u64)> = Vec::new();
        let mut q: usize = 0;
        while q < project_agents.len()
            invariant
                q <= project_agents.len(),
                project_agents@ == agents,
                forall|t: int| 0 <= t < agents.len() ==> agent_total(rows@, #[trigger] agents[t], ShareMetric::Tokens) <= u64::MAX,
                totals@ == agents.subrange(0, q as int).map_values(
                    |g: AgentKind| (g, day_agent_total(rows@, d as int, g) as u64),
                ),
            decreases project_agents.len() - q,
        {
            let a = project_agents[q];
            assert(agent_total(rows@, agents[q as int], ShareMetric::Tokens) <= u64::MAX);
            let t = day_agent_sum(rows, d, a);
            totals.push((a, t));
            q = q + 1;
            assert(totals@ =~= agents.subrange(0, q as int).map_values(
                |g: AgentKind| (g, day_agent_total(rows@, d as int, g) as u64),
            ));
        }
        assert(agents.subrange(0, agents.len() as int) =~= agents);
        proof {
            assert(days@.contains(d));
            lemma_day_in_range(rows@, d);
        }
        let label = day_label_string(d);
        out.push(DayAgentTotals { day_index: d, label, totals });
        p = p + 1;
    }
    proof {
        assert forall|a: int| 0 <= a < out.len() implies has_day(rows@, agents, #[trigger] out@[a].day_index as int) by {
            assert(days@.contains(days[start + a]));
        }
        assert forall|dd: int| has_day(rows@, agents, dd) implies (exists|a: int| 0 <= a < out@.len() && #[trigger] out@[a].day_index == dd)
            || (out@.len() == 7 && dd < out@[0].day_index) by {
            let j = choose|j: int| 0 <= j < rows@.len() && agents.contains(rows@[j].0.agent) && #[trigger] (rows@[j].0.modified_ms / 86_400_000) == dd;
            let di = (rows@[j].0.modified_ms / 86_400_000) as i64;
            assert(days@.contains(di));
            let w = choose|w: int| 0 <= w < days.len() && days@[w] == di;
            if w >= start {
                assert(out@[w - start].day_index == dd);
            } else {
                assert(days[w] < days[start as int]);
            }
        }
    }
    out
}

proof fn lemma_day_in_range(rows: Seq<(ConversationMeta, ConversationUsage)>, d: i64)
    requires
        exists|j: int| 0 <= j < rows.len() && #[trigger] (rows[j].0.modified_ms / 86_400_000) == d,
    ensures
        crate::calendar::civil_in_range(d as int),
{
    let j = choose|j: int| 0 <= j < rows.len() && #[trigger] (rows[j].0.modified_ms / 86_400_000) == d;
    assert(0 <= d <= u64::MAX / 86_400_000);
}

proof fn lemma_share_members(rows: Seq<(ConversationMeta, ConversationUsage)>, metric: ShareMetric, order: Seq<AgentKind>)
    requires
        forall|k: int| 0 <= k < order.len() ==> agent_total(rows, #[trigger] order[k], metric) <= u64::MAX,
    ensures
        forall|t: int| 0 <= t < share_agents(share_of(rows, metric, order)).len() ==> agent_total(rows,
            #[trigger] share_agents(share_of(rows, metric, order))[t], metric) <= u64::MAX,
    decreases order.len(),
{
    if order.len() > 0 {
        lemma_share_members(rows, metric, order.drop_last());
        assert(order.last() == order[order.len() - 1]);
        let rest = share_of(rows, metric, order.drop_last());
        let t = agent_total(rows, order.last(), metric);
        if t > 0 {
            assert(share_agents(rest.push((order.last(), t as u64))) =~= share_agents(rest).push(order.last()));
        }
    }
}

/// Several same-day quantities of one agent (`values[i]` is series `i`).
#[derive(Debug, Clone, PartialEq)]
pub struct DaySeries {
    pub day_index: i64,
    pub label: String,
    pub values: Vec<u64>,
}

/// Trend window of the session, I/O and cache trends, in days.
pub const SESSION_TREND_WINDOW: i64 = 15;
pub const IO_TREND_WINDOW: i64 = 15;
pub const CACHE_TREND_WINDOW: i64 = 15;

/// The two series a trend chart draws per day.
#[derive(Debug, Clone, Copy, PartialEq, Eq, Structural)]
pub enum TrendKind {
    /// Conversations (one each) and turns.
    Session,
    /// Input tokens and output tokens.
    Io,
    /// Cache read tokens and cache write tokens.
    Cache,
}

/// Value of series `s` (0 or 1) of `kind` for one conversation.
pub open spec fn trend_value(kind: TrendKind, u: ConversationUsage, s: int) -> int {
    match kind {
        TrendKind::Session => if s == 0 { 1 } else { u.turns as int },
        TrendKind::Io => if s == 0 { u.tokens_in as int } else { u.tokens_out as int },
        TrendKind::Cache => if s == 0 { u.tokens_cache_read as int } else { u.tokens_cache_write as int },
    }
}

/// Sum of series `s` over the rows of `agent` on day `day`.
pub open spec fn trend_day_total(rows: Seq<(ConversationMeta, ConversationUsage)>, agent: AgentKind, day: int, kind: TrendKind, s: int) -> int
    decreases rows.len(),
{
    if rows.len() == 0 {
        0
    } else {
        trend_day_total(rows.drop_last(), agent, day, kind, s) + if rows.last().0.agent == agent
            && rows.last().0.modified_ms / 86_400_000 == day {
            trend_value(kind, rows.last().1, s)
        } else {
            0
        }
    }
}

/// A share lists, in the given order, each agent whose total is positive,
/// with that total, and no other agent.
pub proof fn law_share_lists_agents_with_positive_totals(rows: Seq<(ConversationMeta, ConversationUsage)>, metric: ShareMetric, order: Seq<AgentKind>)
    requires
        forall|k: int| 0 <= k < order.len() ==> agent_total(rows, #[trigger] order[k], metric) <= u64::MAX,
    ensures
        forall|a: AgentKind, t: u64| #[trigger] share_of(rows, metric, order).contains((a, t)) <==> (order.contains(a)
            && agent_total(rows, a, metric) > 0 && t == agent_total(rows, a, metric)),
    decreases order.len(),
{
    if order.len() > 0 {
        let o = order.drop_last();
        assert forall|k: int| 0 <= k < o.len() implies agent_total(rows, #[trigger] o[k], metric) <= u64::MAX by {
            assert(o[k] == order[k]);
        }
        law_share_lists_agents_with_positive_totals(rows, metric, o);
        let rest = share_of(rows, metric, o);
        let l = order.last();
        assert(agent_total(rows, order[order.len() - 1], metric) <= u64::MAX);
        lemma_agent_total_nonneg_full(rows, l, metric);
        assert forall|a: AgentKind, t: u64| #[trigger] share_of(rows, metric, order).contains((a, t)) <==> (order.contains(a)
            && agent_total(rows, a, metric) > 0 && t == agent_total(rows, a, metric)) by {
            let full = share_of(rows, metric, order);
            if order.contains(a) {
                let k = choose|k: int| 0 <= k < order.len() && order[k] == a;
                if k < o.len() {
                    assert(o[k] == a);
                }
            }
            if o.contains(a) {
                let k = choose|k: int| 0 <= k < o.len() && o[k] == a;
                assert(order[k] == a);
            }
            if agent_total(rows, l, metric) > 0 {
                assert(full == rest.push((l, agent_total(rows, l, metric) as u64)));
                if full.contains((a, t)) && !rest.contains((a, t)) {
                    let q = choose|q: int| 0 <= q < full.len() && full[q] == (a, t);
                    if q < rest.len() {
                        assert(full[q] == rest[q]);
                    }
                    assert(order[order.len() - 1] == a);
                }
                if rest.contains((a, t)) {
                    let q = choose|q: int| 0 <= q < rest.len() && rest[q] == (a, t);
                    assert(full[q] == rest[q]);
                }
                if a == l && t == agent_total(rows, a, metric) {
                    assert(full[rest.len() as int] == (a, t));
                }
            } else {
                assert(full == rest);
            }
        }
    }
}

/// An agent's token total is its input-plus-output total plus its cache
/// total: every one of the four token fields counts, each once.
pub proof fn law_token_total_is_io_plus_cache(rows: Seq<(ConversationMeta, ConversationUsage)>, kind: AgentKind)
    ensures
        agent_total(rows, kind, ShareMetric::Tokens)
            == agent_total(rows, kind, ShareMetric::IoTokens) + agent_total(rows, kind, ShareMetric::CacheTokens),
    decreases rows.len(),
{
    if rows.len() > 0 {
        law_token_total_is_io_plus_cache(rows.drop_last(), kind);
    }
}

/// One more conversation of agent `m.agent` adds to that agent's totals
/// exactly its own figures (its four token fields for tokens, input plus
/// output, cache read plus cache write, its turns, one session) and leaves
/// every other agent's totals alone.
pub proof fn law_agent_totals_add_up(rows: Seq<(ConversationMeta, ConversationUsage)>, m: ConversationMeta, u: ConversationUsage, kind: AgentKind)
    ensures
        kind != m.agent ==> forall|metric: ShareMetric| #[trigger] agent_total(rows.push((m, u)), kind, metric) == agent_total(rows, kind, metric),
        agent_total(rows.push((m, u)), m.agent, ShareMetric::Tokens) == agent_total(rows, m.agent, ShareMetric::Tokens)
            + u.tokens_in + u.tokens_out + u.tokens_cache_read + u.tokens_cache_write,
        agent_total(rows.push((m, u)), m.agent, ShareMetric::IoTokens) == agent_total(rows, m.agent, ShareMetric::IoTokens)
            + u.tokens_in + u.tokens_out,
        agent_total(rows.push((m, u)), m.agent, ShareMetric::CacheTokens) == agent_total(rows, m.agent, ShareMetric::CacheTokens)
            + u.tokens_cache_read + u.tokens_cache_write,
        agent_total(rows.push((m, u)), m.agent, ShareMetric::Turns) == agent_total(rows, m.agent, ShareMetric::Turns) + u.turns,
        agent_total(rows.push((m, u)), m.agent, ShareMetric::Sessions) == agent_total(rows, m.agent, ShareMetric::Sessions) + 1,
{
    assert(rows.push((m, u)).drop_last() =~= rows);
}

/// An agent's daily token total is the sum of its four daily token series
/// (input, output, cache read, cache write) of the trend charts.
pub proof fn law_daily_tokens_are_the_four_series(rows: Seq<(ConversationMeta, ConversationUsage)>, day: int, a: AgentKind)
    ensures
        day_agent_total(rows, day, a) == trend_day_total(rows, a, day, TrendKind::Io, 0)
            + trend_day_total(rows, a, day, TrendKind::Io, 1) + trend_day_total(rows, a, day, TrendKind::Cache, 0)
            + trend_day_total(rows, a, day, TrendKind::Cache, 1),
    decreases rows.len(),
{
    if rows.len() > 0 {
        law_daily_tokens_are_the_four_series(rows.drop_last(), day, a);
    }
}

/// `v` capped at `u64::MAX`, as `saturating_add` accumulates.
pub open spec fn saturate(v: int) -> u64 {
    if v > u64::MAX { u64::MAX } else { v as u64 }
}

/// What a trend returns: one entry per day of the `window` days ending at
/// `last_day`, oldest first, each holding the two series of `agent` on that
/// day (0 where it has no conversation), totals capped at `u64::MAX`.
pub open spec fn trend_ok(rows: Seq<(ConversationMeta, ConversationUsage)>, agent: AgentKind, window: int, last_day: int, kind: TrendKind, r: Seq<DaySeries>) -> bool {
    &&& r.len() == if window > 0 { window } else { 0 }
    &&& forall|k: int| 0 <= k < r.len() ==> (#[trigger] r[k]).day_index == last_day - window + 1 + k
    &&& forall|k: int| 0 <= k < r.len() ==> (#[trigger] r[k]).label@ == day_label(r[k].day_index as int)
    &&& forall|k: int| 0 <= k < r.len() ==> (#[trigger] r[k]).values@ == seq![
        saturate(trend_day_total(rows, agent, r[k].day_index as int, kind, 0)),
        saturate(trend_day_total(rows, agent, r[k].day_index as int, kind, 1)),
    ]
}

proof fn lemma_trend_nonneg(rows: Seq<(ConversationMeta, ConversationUsage)>, agent: AgentKind, day: int, kind: TrendKind, s: int)
    ensures
        trend_day_total(rows, agent, day, kind, s) >= 0,
    decreases rows.len(),
{
    if rows.len() > 0 {
        lemma_trend_nonneg(rows.drop_last(), agent, day, kind, s);
    }
}

/// Series `s` of `kind` for one conversation.
fn trend_row_value(kind: TrendKind, u: &ConversationUsage, s: usize) -> (r: u64)
    ensures
        r == trend_value(kind, *u, s as int),
{
    match kind {
        TrendKind::Session => if s == 0 { 1 } else { u.turns as u64 },
        TrendKind::Io => if s == 0 { u.tokens_in } else { u.tokens_out },
        TrendKind::Cache => if s == 0 { u.tokens_cache_read } else { u.tokens_cache_write },
    }
}

/// Capped total of series `s` of `agent` on day `day`.
fn trend_day_sum(rows: &[(ConversationMeta, ConversationUsage)], agent: AgentKind, day: i64, kind: TrendKind, s: usize) -> (r: u64)
    ensures
        r == saturate(trend_day_total(rows@, agent, day as int, kind, s as int)),
{
    let mut total: u64 = 0;
    let mut i: usize = 0;
    while i < rows.len()
        invariant
            i <= rows.len(),
            total == saturate(trend_day_total(rows@.subrange(0, i as int), agent, day as int, kind, s as int)),
        decreases rows.len() - i,
    {
        proof {
            assert(rows@.subrange(0, i + 1).drop_last() =~= rows@.subrange(0, i as int));
            lemma_trend_nonneg(rows@.subrange(0, i as int), agent, day as int, kind, s as int);
        }
        if rows[i].0.agent == agent && day_index_from_ms(rows[i].0.modified_ms) == day {
            let v = trend_row_value(kind, &rows[i].1, s);
            total = total.saturating_add(v);
        }
        i = i + 1;
    }
    assert(rows@.subrange(0, rows@.len() as int) =~= rows@);
    total
}

/// `trend_series`: the `window`-day axis ending at `last_day_index`, each
/// day with the two series of `kind` summed over `agent`'s conversations of
/// that day; days without data stay on the axis with zeros.
pub fn trend_series(rows: &[(ConversationMeta, ConversationUsage)], agent: AgentKind, window: i64, last_day_index: i64, kind: TrendKind) -> (r: Vec<DaySeries>)
    requires
        window > 0 ==> crate::calendar::civil_in_range(last_day_index - window + 1),
        window > 0 ==> crate::calendar::civil_in_range(last_day_index as int),
        i64::MIN <= last_day_index - window,
        last_day_index - window + 1 <= i64::MAX,
    ensures
        trend_ok(rows@, agent, window as int, last_day_index as int, kind, r@),
{
    let first_day = last_day_index - window + 1;
    let mut out: Vec<DaySeries> = Vec::new();
    if window <= 0 {
        return out;
    }
    let mut k: i64 = 0;
    while k < window
        invariant
            first_day == last_day_index - window + 1,
            window > 0,
            crate::calendar::civil_in_range(first_day as int),
            crate::calendar::civil_in_range(last_day_index as int),
            0 <= k <= window,
            out.len() == k,
            forall|q: int| 0 <= q < out.len() ==> (#[trigger] out[q]).day_index == first_day + q,
            forall|q: int| 0 <= q < out.len() ==> (#[trigger] out[q]).label@ == day_label(out[q].day_index as int),
            forall|q: int| 0 <= q < out.len() ==> (#[trigger] out[q]).values@ == seq![
                saturate(trend_day_total(rows@, agent, out[q].day_index as int, kind, 0)),
                saturate(trend_day_total(rows@, agent, out[q].day_index as int, kind, 1)),
            ],
        decreases window - k,
    {
        let day = first_day + k;
        let v0 = trend_day_sum(rows, agent, day, kind, 0);
        let v1 = trend_day_sum(rows, agent, day, kind, 1);
        let values = vec![v0, v1];
        let label = day_label_string(day);
        out.push(DaySeries { day_index: day, label, values });
        assert(out[out.len() - 1].values@ =~= seq![v0, v1]);
        k = k + 1;
    }
    out
}

/// Sessions (one per conversation) and turns of `agent` per day over the
/// last `SESSION_TREND_WINDOW` days ending at `today_index`.
pub fn session_round_trend(rows: &[(ConversationMeta, ConversationUsage)], agent: AgentKind, today_index: i64) -> (r: Vec<DaySeries>)
    requires
        i64::MIN + 15 <= today_index,
        crate::calendar::civil_in_range(today_index as int),
    ensures
        trend_ok(rows@, agent, 15, today_index as int, TrendKind::Session, r@),
{
    assert(SESSION_TREND_WINDOW == 15);
    trend_series(rows, agent, SESSION_TREND_WINDOW, today_index, TrendKind::Session)
}

/// Input and output tokens of `agent` per day over the last
/// `IO_TREND_WINDOW` days ending at `today_index`.
pub fn io_trend(rows: &[(ConversationMeta, ConversationUsage)], agent: AgentKind, today_index: i64) -> (r: Vec<DaySeries>)
    requires
        i64::MIN + 15 <= today_index,
        crate::calendar::civil_in_range(today_index as int),
    ensures
        trend_ok(rows@, agent, 15, today_index as int, TrendKind::Io, r@),
{
    assert(IO_TREND_WINDOW == 15);
    trend_series(rows, agent, IO_TREND_WINDOW, today_index, TrendKind::Io)
}

/// Cache read and cache write tokens of `agent` per day over the last
/// `CACHE_TREND_WINDOW` days ending at `today_index`.
pub fn cache_trend(rows: &[(ConversationMeta, ConversationUsage)], agent: AgentKind, today_index: i64) -> (r: Vec<DaySeries>)
    requires
        i64::MIN + 15 <= today_index,
        crate::calendar::civil_in_range(today_index as int),
    ensures
        trend_ok(rows@, agent, 15, today_index as int, TrendKind::Cache, r@),
{
    assert(CACHE_TREND_WINDOW == 15);
    trend_series(rows, agent, CACHE_TREND_WINDOW, today_index, TrendKind::Cache)
}

/// Some day has some positive value.
pub open spec fn any_value(days: Seq<DaySeries>) -> bool {
    exists|i: int, j: int| 0 <= i < days.len() && 0 <= j < days[i].values@.len() && #[trigger] days[i].values@[j] > 0
}

/// `has_any_value`: whether some day of the trend has a non-zero value.
pub fn has_any_value(days: &[DaySeries]) -> (r: bool)
    ensures
        r == any_value(days@),
{
    let mut i: usize = 0;
    while i < days.len()
        invariant
            i <= days.len(),
            forall|a: int, b: int| 0 <= a < i && 0 <= b < days@[a].values@.len() ==> #[trigger] days@[a].values@[b] == 0,
        decreases days.len() - i,
    {
        let mut j: usize = 0;
        while j < days[i].values.len()
            invariant
                i < days.len(),
                j <= days@[i as int].values@.len(),
                forall|b: int| 0 <= b < j ==> #[trigger] days@[i as int].values@[b] == 0,
            decreases days@[i as int].values@.len() - j,
        {
            if days[i].values[j] > 0 {
                return true;
            }
            j = j + 1;
        }
        i = i + 1;
    }
    false
}

/// Sum of all values of the days `days`.
pub open spec fn days_total(days: Seq<DaySeries>) -> int
    decreases days.len(),
{
    if days.len() == 0 {
        0
    } else {
        days_total(days.drop_last()) + seq_total(days.last().values@)
    }
}

/// Sum of a sequence of counts.
pub open spec fn seq_total(v: Seq<u64>) -> int
    decreases v.len(),
{
    if v.len() == 0 {
        0
    } else {
        seq_total(v.drop_last()) + v.last()
    }
}

proof fn lemma_seq_total_prefix(v: Seq<u64>, i: int)
    requires
        0 <= i <= v.len(),
    ensures
        0 <= seq_total(v.subrange(0, i)) <= seq_total(v),
    decreases v.len() - i,
{
    if i < v.len() {
        assert(v.drop_last().subrange(0, i) =~= v.subrange(0, i));
        lemma_seq_total_prefix(v.drop_last(), i);
    } else {
        assert(v.subrange(0, i) =~= v);
        lemma_seq_total_nonneg(v);
    }
}

proof fn lemma_seq_total_nonneg(v: Seq<u64>)
    ensures
        seq_total(v) >= 0,
    decreases v.len(),
{
    if v.len() > 0 {
        lemma_seq_total_nonneg(v.drop_last());
    }
}

proof fn lemma_days_total_prefix(d: Seq<DaySeries>, i: int)
    requires
        0 <= i <= d.len(),
    ensures
        0 <= days_total(d.subrange(0, i)) <= days_total(d),
    decreases d.len() - i,
{
    if i < d.len() {
        assert(d.drop_last().subrange(0, i) =~= d.subrange(0, i));
        lemma_days_total_prefix(d.drop_last(), i);
        lemma_seq_total_nonneg(d.last().values@);
    } else {
        assert(d.subrange(0, i) =~= d);
        lemma_days_total_nonneg(d);
    }
}

proof fn lemma_days_total_nonneg(d: Seq<DaySeries>)
    ensures
        days_total(d) >= 0,
    decreases d.len(),
{
    if d.len() > 0 {
        lemma_days_total_nonneg(d.drop_last());
        lemma_seq_total_nonneg(d.last().values@);
    }
}

/// `trend_total`: the sum of every value of every day.
pub fn trend_total(days: &[DaySeries]) -> (r: u64)
    requires
        days_total(days@) <= u64::MAX,
    ensures
        r == days_total(days@),
{
    let mut total: u64 = 0;
    let mut i: usize = 0;
    while i < days.len()
        invariant
            i <= days.len(),
            days_total(days@) <= u64::MAX,
            total == days_total(days@.subrange(0, i as int)),
        decreases days.len() - i,
    {
        let v = &days[i].values;
        let mut j: usize = 0;
        let mut sub: u64 = 0;
        proof {
            assert(days@.subrange(0, i + 1).drop_last() =~= days@.subrange(0, i as int));
            lemma_days_total_prefix(days@, i + 1);
        }
        while j < v.len()
            invariant
                i < days.len(),
                v@ == days@[i as int].values@,
                j <= v.len(),
                total + seq_total(v@) <= u64::MAX,
                sub == seq_total(v@.subrange(0, j as int)),
            decreases v.len() - j,
        {
            proof {
                assert(v@.subrange(0, j + 1).drop_last() =~= v@.subrange(0, j as int));
                lemma_seq_total_prefix(v@, j + 1);
                lemma_days_total_nonneg(days@.subrange(0, i as int));
            }
            sub = sub + v[j];
            j = j + 1;
        }
        assert(v@.subrange(0, v@.len() as int) =~= v@);
        total = total + sub;
        i = i + 1;
    }
    assert(days@.subrange(0, days@.len() as int) =~= days@);
    total
}

/// Sum of the counts of a share.
pub open spec fn share_sum(share: Seq<(AgentKind, u64)>) -> int
    decreases share.len(),
{
    if share.len() == 0 {
        0
    } else {
        share_sum(share.drop_last()) + share.last().1
    }
}

proof fn lemma_share_sum_prefix(v: Seq<(AgentKind, u64)>, i: int)
    requires
        0 <= i <= v.len(),
    ensures
        0 <= share_sum(v.subrange(0, i)) <= share_sum(v),
    decreases v.len() - i,
{
    if i < v.len() {
        assert(v.drop_last().subrange(0, i) =~= v.subrange(0, i));
        lemma_share_sum_prefix(v.drop_last(), i);
    } else {
        assert(v.subrange(0, i) =~= v);
        lemma_share_sum_nonneg(v);
    }
}

pub(crate) proof fn lemma_share_sum_nonneg(v: Seq<(AgentKind, u64)>)
    ensures
        share_sum(v) >= 0,
    decreases v.len(),
{
    if v.len() > 0 {
        lemma_share_sum_nonneg(v.drop_last());
    }
}

/// `share_total`: the sum of the counts of all agents of a share.
pub fn share_total(share: &[(AgentKind, u64)]) -> (r: u64)
    requires
        share_sum(share@) <= u64::MAX,
    ensures
        r == share_sum(share@),
{
    let mut total: u64 = 0;
    let mut i: usize = 0;
    while i < share.len()
        invariant
            i <= share.len(),
            share_sum(share@) <= u64::MAX,
            total == share_sum(share@.subrange(0, i as int)),
        decreases share.len() - i,
    {
        proof {
            assert(share@.subrange(0, i + 1).drop_last() =~= share@.subrange(0, i as int));
            lemma_share_sum_prefix(share@, i + 1);
        }
        total = total + share[i].1;
        i = i + 1;
    }
    assert(share@.subrange(0, share@.len() as int) =~= share@);
    total
}

/// The usage panel of one workspace: the loaded rows, whether a refresh is
/// running, and the agent the statistics are narrowed to.
pub struct WorkspaceState {
    rows: Vec<(ConversationMeta, ConversationUsage)>,
    loading: bool,
    agent_filter: Option<AgentKind>,
}

/// Messages the usage panel handles itself.
pub enum Message {
    /// Rows loaded for a project.
    Loaded(i64, Vec<(ConversationMeta, ConversationUsage)>),
    /// The agent filter was picked (`None` = all agents).
    AgentFilterSet(Option<AgentKind>),
}

impl WorkspaceState {
    /// An empty panel, not loading, unfiltered.
    pub fn new() -> (r: Self)
        ensures
            r.rows_spec().len() == 0,
            !r.loading_spec(),
            r.agent_filter_spec() is None,
    {
        WorkspaceState { rows: Vec::new(), loading: false, agent_filter: None }
    }

    pub closed spec fn rows_spec(&self) -> Seq<(ConversationMeta, ConversationUsage)> {
        self.rows@
    }

    pub closed spec fn loading_spec(&self) -> bool {
        self.loading
    }

    pub closed spec fn agent_filter_spec(&self) -> Option<AgentKind> {
        self.agent_filter
    }

    /// The loaded rows.
    pub fn rows(&self) -> (r: &[(ConversationMeta, ConversationUsage)])
        ensures
            r@ == self.rows_spec(),
    {
        self.rows.as_slice()
    }

    /// Whether a refresh is running.
    pub fn loading(&self) -> (r: bool)
        ensures
            r == self.loading_spec(),
    {
        self.loading
    }

    /// Marks a refresh as running or finished.
    pub fn set_loading(&mut self, loading: bool)
        ensures
            final(self).loading_spec() == loading,
            final(self).rows_spec() == old(self).rows_spec(),
            final(self).agent_filter_spec() == old(self).agent_filter_spec(),
    {
        self.loading = loading;
    }

    /// The agent the statistics are narrowed to (`None` = all).
    pub fn agent_filter(&self) -> (r: Option<AgentKind>)
        ensures
            r == self.agent_filter_spec(),
    {
        self.agent_filter
    }

    /// Whether the agent filter column is shown: data loaded and present.
    pub fn has_agent_filter(&self) -> (r: bool)
        ensures
            r == (!self.loading_spec() && self.rows_spec().len() > 0),
    {
        !self.loading && self.rows.len() > 0
    }
}

impl Default for WorkspaceState {
    fn default() -> (r: Self)
        ensures
            r.rows_spec().len() == 0,
            !r.loading_spec(),
            r.agent_filter_spec() is None,
    {
        WorkspaceState::new()
    }
}

/// `update`: loaded rows replace the old ones and end the refresh; a filter
/// pick replaces the filter.
pub fn update(ws_state: &mut WorkspaceState, msg: Message)
    ensures
        match msg {
            Message::Loaded(_, rows) => {
                &&& final(ws_state).rows_spec() == rows@
                &&& !final(ws_state).loading_spec()
                &&& final(ws_state).agent_filter_spec() == old(ws_state).agent_filter_spec()
            },
            Message::AgentFilterSet(a) => {
                &&& final(ws_state).agent_filter_spec() == a
                &&& final(ws_state).rows_spec() == old(ws_state).rows_spec()
                &&& final(ws_state).loading_spec() == old(ws_state).loading_spec()
            },
        },
{
    match msg {
        Message::Loaded(_, rows) => {
            ws_state.rows = rows;
            ws_state.loading = false;
        },
        Message::AgentFilterSet(agent) => {
            ws_state.agent_filter = agent;
        },
    }
}

} // verus!
