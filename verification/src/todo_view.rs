//! What the todo panel shows, computed from its state: the state of every
//! card, the three blocks of the list (active, suspended, done) and the drop
//! indicator of a drag, the facts printed on a card, the rows of the
//! category navigation, and the texts and choices of the popups.
use vstd::prelude::*;
use crate::agent::AgentKind;
use crate::calendar::{month_day_label, month_day_of, parse_month_day, today_ymd, format_todo_month_day};
use crate::text::{chars_of, string_of, decimal, decimal_string, two_digits, two_digit_string, str_eq};
use crate::todo_model::{
    display_state, filter_todos, filter_todos_by_category, hits, ids_in_category, query_key, todo_display_state,
    CategoryFilter, CategoryInfo, CategoryTreeRow, StatusFilter, TodoDrag, TodoInfo, TodoState,
};

verus! {

broadcast use vstd::std_specs::hash::group_hash_axioms;

/// The label of a task state.
pub open spec fn state_label(s: TodoState) -> Seq<char> {
    match s {
        TodoState::Pending => "待办"@,
        TodoState::InProgress => "进行中"@,
        TodoState::Suspended => "搁置"@,
        TodoState::Done => "已完成"@,
    }
}

/// The label of a task state, as the status button and popups print it.
pub fn status_text(s: TodoState) -> (r: &'static str)
    ensures
        r@ == state_label(s),
{
    match s {
        TodoState::Pending => "待办",
        TodoState::InProgress => "进行中",
        TodoState::Suspended => "搁置",
        TodoState::Done => "已完成",
    }
}

/// The label of a status filter.
pub open spec fn filter_label(f: StatusFilter) -> Seq<char> {
    match f {
        StatusFilter::All => "全部"@,
        StatusFilter::Status(s) => state_label(s),
    }
}

/// `status_filter_label`: "全部" for no filter, else the state's label.
pub fn status_filter_label(filter: StatusFilter) -> (r: String)
    ensures
        r@ == filter_label(filter),
{
    match filter {
        StatusFilter::All => "全部".to_owned(),
        StatusFilter::Status(st) => status_text(st).to_owned(),
    }
}

/// The agents a task can be assigned to, in menu order.
pub open spec fn assignable_agents() -> Seq<AgentKind> {
    seq![AgentKind::Claude, AgentKind::Codebuddy, AgentKind::Opencode, AgentKind::V8agent]
}

/// The choices of the dispatch menu of card `idx`: one assignment per
/// assignable agent.
pub fn dispatch_choices(idx: usize) -> (r: Vec<(usize, AgentKind)>)
    ensures
        r@ == assignable_agents().map_values(|a: AgentKind| (idx, a)),
{
    let r = vec![(idx, AgentKind::Claude), (idx, AgentKind::Codebuddy), (idx, AgentKind::Opencode), (idx, AgentKind::V8agent)];
    assert(r@ =~= assignable_agents().map_values(|a: AgentKind| (idx, a)));
    r
}

/// The states offered by a card's status menu, in menu order.
pub open spec fn status_menu() -> Seq<TodoState> {
    seq![TodoState::Pending, TodoState::InProgress, TodoState::Suspended, TodoState::Done]
}

/// The choices of the status menu of card `idx`.
pub fn status_choices(idx: usize) -> (r: Vec<(usize, TodoState)>)
    ensures
        r@ == status_menu().map_values(|s: TodoState| (idx, s)),
{
    let r = vec![(idx, TodoState::Pending), (idx, TodoState::InProgress), (idx, TodoState::Suspended), (idx, TodoState::Done)];
    assert(r@ =~= status_menu().map_values(|s: TodoState| (idx, s)));
    r
}

/// Whether `s` is one of the live sessions.
pub open spec fn session_alive(alive: Seq<String>, s: Seq<char>) -> bool {
    exists|i: int| 0 <= i < alive.len() && (#[trigger] alive[i])@ == s
}

/// The state each task is shown in, given the sessions that are alive.
pub open spec fn states_of(items: Seq<TodoInfo>, alive: Seq<String>) -> Seq<TodoState> {
    Seq::new(items.len(), |i: int| display_state(items[i], items[i].dispatch_session_id matches Some(s) && session_alive(alive, s@)))
}

/// The state of every card: a dispatched task is in progress only while its
/// session is among `alive_sessions`.
pub fn display_states(items: &[TodoInfo], alive_sessions: &[String]) -> (r: Vec<TodoState>)
    ensures
        r@ == states_of(items@, alive_sessions@),
{
    let mut r: Vec<TodoState> = Vec::new();
    let mut i: usize = 0;
    while i < items.len()
        invariant
            i <= items@.len(),
            r@.len() == i,
            forall|k: int| 0 <= k < i ==> r@[k] == states_of(items@, alive_sessions@)[k],
        decreases items@.len() - i,
    {
        let alive = match &items[i].dispatch_session_id {
            Some(sid) => {
                let mut found = false;
                let mut j: usize = 0;
                while j < alive_sessions.len() && !found
                    invariant
                        j <= alive_sessions@.len(),
                        found ==> session_alive(alive_sessions@, sid@),
                        !found ==> forall|k: int| 0 <= k < j ==> (#[trigger] alive_sessions@[k])@ != sid@,
                    decreases alive_sessions@.len() - j + if found { 0int } else { 1int },
                {
                    if str_eq(alive_sessions[j].as_str(), sid.as_str()) {
                        found = true;
                    } else {
                        j = j + 1;
                    }
                }
                found
            },
            None => false,
        };
        r.push(todo_display_state(&items[i], alive));
        i = i + 1;
    }
    assert(r@ =~= states_of(items@, alive_sessions@));
    r
}

/// Whether task `i` passes the category filter (by its id) and the status
/// filter.
pub open spec fn passes_filters(
    items: Seq<TodoInfo>,
    states: Seq<TodoState>,
    cats: Seq<CategoryInfo>,
    cf: CategoryFilter,
    sf: StatusFilter,
    i: int,
) -> bool {
    &&& ids_in_category(items, cats, cf).contains(items[i].id)
    &&& (sf matches StatusFilter::Status(st) ==> states[i] == st)
}

/// The keyword hits `h` that pass the other two filters, in order.
pub open spec fn keep_passing(
    h: Seq<usize>,
    items: Seq<TodoInfo>,
    states: Seq<TodoState>,
    cats: Seq<CategoryInfo>,
    cf: CategoryFilter,
    sf: StatusFilter,
) -> Seq<usize>
    decreases h.len(),
{
    if h.len() == 0 {
        Seq::empty()
    } else {
        let k = keep_passing(h.drop_last(), items, states, cats, cf, sf);
        if passes_filters(items, states, cats, cf, sf, h.last() as int) { k.push(h.last()) } else { k }
    }
}

/// The block a visible task is listed in: 0 active, 1 suspended, 2 done.
pub open spec fn block_of(t: TodoInfo) -> int {
    if t.done { 2 } else if t.paused { 1 } else { 0 }
}

/// The indices of `v` whose task lies in block `b`, in order.
pub open spec fn in_block(v: Seq<usize>, items: Seq<TodoInfo>, b: int) -> Seq<usize>
    decreases v.len(),
{
    if v.len() == 0 {
        Seq::empty()
    } else {
        let k = in_block(v.drop_last(), items, b);
        if block_of(items[v.last() as int]) == b { k.push(v.last()) } else { k }
    }
}

/// The first position of `x` in `s`.
pub open spec fn position_of(s: Seq<usize>, x: usize) -> Option<int>
    decreases s.len(),
{
    if s.len() == 0 {
        None
    } else if s[0] == x {
        Some(0)
    } else {
        match position_of(s.drop_first(), x) {
            Some(p) => Some(p + 1),
            None => None,
        }
    }
}

/// How the list is laid out: the visible tasks, split into the active,
/// suspended and done blocks (each in list order), and where a drag's drop
/// indicator goes: before the active card at `insert_before`, or after the
/// active block.
#[derive(Debug, PartialEq)]
pub struct ListLayout {
    pub visible: Vec<usize>,
    pub active: Vec<usize>,
    pub suspended: Vec<usize>,
    pub done: Vec<usize>,
    pub insert_before: Option<usize>,
    pub insert_at_end: bool,
}

/// The visible tasks: keyword hits that pass the category and status filters.
pub open spec fn visible_of(
    items: Seq<TodoInfo>,
    states: Seq<TodoState>,
    search: Seq<char>,
    cats: Seq<CategoryInfo>,
    cf: CategoryFilter,
    sf: StatusFilter,
) -> Seq<usize> {
    keep_passing(hits(items, query_key(search)), items, states, cats, cf, sf)
}

/// Where the drop indicator goes for `drag` over the active block `act`.
pub open spec fn indicator_of(drag: Option<TodoDrag>, act: Seq<usize>) -> (Option<usize>, bool) {
    match drag {
        Some(d) => if d.source_idx != d.target_idx {
            match position_of(act, d.target_idx) {
                Some(p) => (Some(p as usize), false),
                None => (None, true),
            }
        } else {
            (None, false)
        },
        None => (None, false),
    }
}

proof fn lemma_position_of(s: Seq<usize>, x: usize, i: int)
    requires
        0 <= i <= s.len(),
        forall|k: int| 0 <= k < i ==> s[k] != x,
    ensures
        i < s.len() && s[i] == x ==> position_of(s, x) == Some(i),
        i == s.len() ==> position_of(s, x) is None,
    decreases i,
{
    if i > 0 {
        assert forall|k: int| 0 <= k < i - 1 implies s.drop_first()[k] != x by {
            assert(s.drop_first()[k] == s[k + 1]);
        }
        lemma_position_of(s.drop_first(), x, i - 1);
        if i < s.len() && s[i] == x {
            assert(s.drop_first()[i - 1] == s[i]);
        }
    }
}

/// The layout of the task list, with the sessions in `alive_sessions`
/// running: the tasks matching the keyword,
/// the category filter and the status filter, split into blocks, and the
/// drop indicator of a drag that has moved.
pub fn list_layout(
    items: &[TodoInfo],
    alive_sessions: &[String],
    search: &str,
    categories: &[CategoryInfo],
    category_filter: CategoryFilter,
    status_filter: StatusFilter,
    drag: Option<TodoDrag>,
) -> (r: ListLayout)
    ensures
        r.visible@ == visible_of(items@, states_of(items@, alive_sessions@), search@, categories@, category_filter, status_filter),
        r.active@ == in_block(r.visible@, items@, 0),
        r.suspended@ == in_block(r.visible@, items@, 1),
        r.done@ == in_block(r.visible@, items@, 2),
        (r.insert_before, r.insert_at_end) == indicator_of(drag, r.active@),
{
    let state_list = display_states(items, alive_sessions);
    let states = state_list.as_slice();
    let h = filter_todos(items, search);
    let allowed = filter_todos_by_category(items, categories, category_filter);
    let n = items.len();
    proof {
        crate::todo_model::law_hits_are_matching_indices(items@, query_key(search@));
    }
    let mut visible: Vec<usize> = Vec::new();
    let mut i: usize = 0;
    assert(h@.take(0) =~= Seq::<usize>::empty());
    while i < h.len()
        invariant
            i <= h@.len(),
            states@.len() == items@.len(),
            h@ == hits(items@, query_key(search@)),
            allowed@ == ids_in_category(items@, categories@, category_filter),
            forall|k: int| 0 <= k < h@.len() ==> (#[trigger] h@[k]) < items@.len(),
            forall|k: int| 0 <= k < visible@.len() ==> (#[trigger] visible@[k]) < items@.len(),
            visible@ == keep_passing(h@.take(i as int), items@, states@, categories@, category_filter, status_filter),
        decreases h@.len() - i,
    {
        let k = h[i];
        let ok_cat = allowed.contains(&items[k].id);
        let ok_state = match status_filter {
            StatusFilter::All => true,
            StatusFilter::Status(st) => states[k] == st,
        };
        assert(h@.take(i + 1).drop_last() =~= h@.take(i as int));
        assert(h@.take(i + 1).last() == k);
        if ok_cat && ok_state {
            visible.push(k);
        }
        i = i + 1;
    }
    assert(h@.take(h@.len() as int) =~= h@);
    let mut act: Vec<usize> = Vec::new();
    let mut sus: Vec<usize> = Vec::new();
    let mut don: Vec<usize> = Vec::new();
    let mut j: usize = 0;
    assert(visible@.take(0) =~= Seq::<usize>::empty());
    while j < visible.len()
        invariant
            j <= visible@.len(),
            forall|k: int| 0 <= k < visible@.len() ==> (#[trigger] visible@[k]) < items@.len(),
            act@ == in_block(visible@.take(j as int), items@, 0),
            sus@ == in_block(visible@.take(j as int), items@, 1),
            don@ == in_block(visible@.take(j as int), items@, 2),
        decreases visible@.len() - j,
    {
        let k = visible[j];
        assert(visible@.take(j + 1).drop_last() =~= visible@.take(j as int));
        assert(visible@.take(j + 1).last() == k);
        if items[k].done {
            don.push(k);
        } else if items[k].paused {
            sus.push(k);
        } else {
            act.push(k);
        }
        j = j + 1;
    }
    assert(visible@.take(visible@.len() as int) =~= visible@);
    let mut insert_before: Option<usize> = None;
    let mut insert_at_end = false;
    match drag {
        Some(d) => {
            if d.source_idx != d.target_idx {
                let mut p: usize = 0;
                let mut found = false;
                while p < act.len() && !found
                    invariant
                        p <= act@.len(),
                        forall|k: int| 0 <= k < p ==> act@[k] != d.target_idx,
                        found ==> p < act@.len() && act@[p as int] == d.target_idx,
                    decreases act@.len() - p + if found { 0int } else { 1int },
                {
                    if act[p] == d.target_idx {
                        found = true;
                    } else {
                        p = p + 1;
                    }
                }
                proof {
                    lemma_position_of(act@, d.target_idx, p as int);
                }
                if found {
                    insert_before = Some(p);
                } else {
                    insert_at_end = true;
                }
            }
        },
        None => {},
    }
    ListLayout { visible, active: act, suspended: sus, done: don, insert_before, insert_at_end }
}

/// `s` padded with leading zeros to three characters (`{:03}`).
pub open spec fn pad3(s: Seq<char>) -> Seq<char> {
    if s.len() >= 3 { s } else { Seq::new((3 - s.len()) as nat, |i: int| '0') + s }
}

/// The number label of the card at display position `n`: `#` and the number
/// with at least three digits.
pub open spec fn number_label(n: nat) -> Seq<char> {
    seq!['#'] + pad3(decimal(n))
}

/// The date a card shows: the completion day of a done task, else its plan
/// date, `-` when there is none.
pub open spec fn date_label(item: TodoInfo, state: TodoState) -> Seq<char> {
    if state == TodoState::Done {
        match item.completed_at_ms {
            Some(ms) => month_day_label(ms as int),
            None => "-"@,
        }
    } else {
        match item.plan_date {
            Some(d) => d@,
            None => "-"@,
        }
    }
}

/// The name of the first category with id `id`.
pub open spec fn category_name(cats: Seq<CategoryInfo>, id: i64) -> Option<Seq<char>>
    decreases cats.len(),
{
    if cats.len() == 0 {
        None
    } else if cats[0].id == id {
        Some(cats[0].name@)
    } else {
        category_name(cats.drop_first(), id)
    }
}

/// The category chip of a card: the name of the task's category, "未分类"
/// when it has none or the category is unknown.
pub open spec fn category_label(item: TodoInfo, cats: Seq<CategoryInfo>) -> Seq<char> {
    match item.category_id {
        Some(id) => match category_name(cats, id) {
            Some(n) => n,
            None => "未分类"@,
        },
        None => "未分类"@,
    }
}

/// What a task card shows and offers: its number, date and category labels,
/// whether it has a detail button (assigned or dispatched), whether it has an
/// assign button (pending and never dispatched), whether it is drawn done
/// (ticked and struck through), and what pressing it selects.
#[derive(Debug, PartialEq)]
pub struct CardFacts {
    pub number_label: String,
    pub date_label: String,
    pub category_label: String,
    pub show_detail: bool,
    pub show_assign: bool,
    pub done: bool,
    pub press_selects: Option<usize>,
}

/// The facts of the card of task `item` (at index `idx`, display position
/// `number`, shown in `state`).
pub fn card_facts(
    item: &TodoInfo,
    state: TodoState,
    number: usize,
    idx: usize,
    selected: bool,
    categories: &[CategoryInfo],
) -> (r: CardFacts)
    ensures
        r.number_label@ == number_label(number as nat),
        r.date_label@ == date_label(*item, state),
        r.category_label@ == category_label(*item, categories@),
        r.show_detail == (item.assigned_agent is Some || item.dispatch_session_id is Some),
        r.show_assign == (state == TodoState::Pending && item.dispatch_session_id is None),
        r.done == item.done,
        r.press_selects == if selected { None } else { Some(idx) },
{
    let digits = chars_of(decimal_string(number as u64).as_str());
    let mut label: Vec<char> = Vec::new();
    label.push('#');
    let mut z: usize = digits.len();
    while z < 3
        invariant
            digits.len() <= z <= 3 || digits.len() > 3 && z == digits.len(),
            label@ == seq!['#'] + Seq::new((z - digits.len()) as nat, |i: int| '0'),
        decreases 3 - z,
    {
        label.push('0');
        z = z + 1;
        assert(label@ =~= seq!['#'] + Seq::new((z - digits.len()) as nat, |i: int| '0'));
    }
    let mut dd = digits.clone();
    label.append(&mut dd);
    proof {
        if digits@.len() >= 3 {
            assert(label@ =~= seq!['#'] + digits@);
        } else {
            assert(label@ =~= seq!['#'] + (Seq::new((3 - digits@.len()) as nat, |i: int| '0') + digits@));
        }
    }
    let number_text = string_of(&label);
    let date_text = if state == TodoState::Done {
        match item.completed_at_ms {
            Some(ms) => format_todo_month_day(ms),
            None => "-".to_owned(),
        }
    } else {
        match &item.plan_date {
            Some(d) => d.clone(),
            None => "-".to_owned(),
        }
    };
    let mut cat_text = "未分类".to_owned();
    match item.category_id {
        Some(id) => {
            let mut k: usize = 0;
            let mut found = false;
            assert(categories@.skip(0) =~= categories@);
            while k < categories.len() && !found
                invariant
                    k <= categories@.len(),
                    found ==> category_name(categories@, id) == Some(cat_text@),
                    !found ==> category_name(categories@, id) == category_name(categories@.skip(k as int), id),
                    !found ==> cat_text@ == "未分类"@,
                decreases categories@.len() - k + if found { 0int } else { 1int },
            {
                assert(categories@.skip(k as int).drop_first() =~= categories@.skip(k + 1));
                if categories[k].id == id {
                    cat_text = categories[k].name.clone();
                    found = true;
                } else {
                    k = k + 1;
                }
            }
        },
        None => {},
    }
    CardFacts {
        number_label: number_text,
        date_label: date_text,
        category_label: cat_text,
        show_detail: item.assigned_agent.is_some() || item.dispatch_session_id.is_some(),
        show_assign: state == TodoState::Pending && item.dispatch_session_id.is_none(),
        done: item.done,
        press_selects: if selected { None } else { Some(idx) },
    }
}

/// One row of the category navigation.
#[derive(Debug, PartialEq)]
pub enum NavRow {
    /// One of the two rows pinned on top ("全部", "未分类").
    Pseudo { filter: CategoryFilter, label: String, active: bool },
    /// The rename box of the category being renamed.
    Renaming { depth: usize, draft: String },
    /// A category node, indented by `indent` pixels.
    Node { id: i64, name: String, depth: usize, has_children: bool, expanded: bool, active: bool, indent: u32 },
}

/// A navigation row by value.
pub enum NavRowView {
    Pseudo { filter: CategoryFilter, label: Seq<char>, active: bool },
    Renaming { depth: int, draft: Seq<char> },
    Node { id: i64, name: Seq<char>, depth: int, has_children: bool, expanded: bool, active: bool, indent: int },
}

impl View for NavRow {
    type V = NavRowView;

    open spec fn view(&self) -> NavRowView {
        match self {
            NavRow::Pseudo { filter, label, active } => NavRowView::Pseudo { filter: *filter, label: label@, active: *active },
            NavRow::Renaming { depth, draft } => NavRowView::Renaming { depth: *depth as int, draft: draft@ },
            NavRow::Node { id, name, depth, has_children, expanded, active, indent } => NavRowView::Node {
                id: *id,
                name: name@,
                depth: *depth as int,
                has_children: *has_children,
                expanded: *expanded,
                active: *active,
                indent: *indent as int,
            },
        }
    }
}

/// The navigation row of a tree row.
pub open spec fn nav_row_of(row: CategoryTreeRow, selected: CategoryFilter, renaming: Option<(i64, Seq<char>)>) -> NavRowView {
    if renaming matches Some((id, _)) && id == row.id {
        NavRowView::Renaming { depth: row.depth as int, draft: renaming.unwrap().1 }
    } else {
        NavRowView::Node {
            id: row.id,
            name: row.name@,
            depth: row.depth as int,
            has_children: row.has_children,
            expanded: row.expanded,
            active: selected == CategoryFilter::Node(row.id),
            indent: 4 + 16 * row.depth,
        }
    }
}

/// The navigation rows: "全部" and "未分类" on top, then one row per tree
/// row (its rename box while it is being renamed).
pub open spec fn nav_rows_of(rows: Seq<CategoryTreeRow>, selected: CategoryFilter, renaming: Option<(i64, Seq<char>)>) -> Seq<NavRowView> {
    seq![
        NavRowView::Pseudo { filter: CategoryFilter::All, label: "全部"@, active: selected == CategoryFilter::All },
        NavRowView::Pseudo { filter: CategoryFilter::Uncategorized, label: "未分类"@, active: selected == CategoryFilter::Uncategorized },
    ] + rows.map_values(|r: CategoryTreeRow| nav_row_of(r, selected, renaming))
}

/// The rows of the category navigation for the visible tree rows.
pub fn category_nav_rows(rows: &[CategoryTreeRow], selected: CategoryFilter, renaming: Option<(i64, &str)>) -> (r: Vec<NavRow>)
    requires
        forall|i: int| 0 <= i < rows@.len() ==> (#[trigger] rows@[i]).depth <= 4095,
    ensures
        r@.map_values(|x: NavRow| x@) == nav_rows_of(
            rows@,
            selected,
            match renaming {
                Some((id, d)) => Some((id, d@)),
                None => None,
            },
        ),
{
    let ghost ren = match renaming {
        Some((id, d)) => Some((id, d@)),
        None => None,
    };
    let mut out: Vec<NavRow> = Vec::new();
    out.push(NavRow::Pseudo { filter: CategoryFilter::All, label: "全部".to_owned(), active: selected == CategoryFilter::All });
    out.push(NavRow::Pseudo { filter: CategoryFilter::Uncategorized, label: "未分类".to_owned(), active: selected == CategoryFilter::Uncategorized });
    let mut i: usize = 0;
    while i < rows.len()
        invariant
            i <= rows@.len(),
            ren == match renaming {
                Some((id, d)) => Some((id, d@)),
                None => None,
            },
            forall|k: int| 0 <= k < rows@.len() ==> (#[trigger] rows@[k]).depth <= 4095,
            out@.len() == i + 2,
            out@[0]@ == nav_rows_of(rows@, selected, ren)[0],
            out@[1]@ == nav_rows_of(rows@, selected, ren)[1],
            forall|k: int| 0 <= k < i ==> (#[trigger] out@[k + 2])@ == nav_row_of(rows@[k], selected, ren),
        decreases rows@.len() - i,
    {
        let row = &rows[i];
        let ghost before = out@;
        let is_renaming = match renaming {
            Some((id, _)) => id == row.id,
            None => false,
        };
        if is_renaming {
            let d = match renaming {
                Some((_, d)) => d.to_owned(),
                None => String::new(),
            };
            out.push(NavRow::Renaming { depth: row.depth, draft: d });
            assert(ren matches Some((id, _)) && id == row.id);
            assert(out@[i + 2]@ == NavRowView::Renaming { depth: row.depth as int, draft: ren.unwrap().1 });
        } else {
            let indent: u32 = 4 + 16 * (row.depth as u32);
            out.push(NavRow::Node {
                id: row.id,
                name: row.name.clone(),
                depth: row.depth,
                has_children: row.has_children,
                expanded: row.expanded,
                active: selected == CategoryFilter::Node(row.id),
                indent,
            });
            assert(!(ren matches Some((id, _)) && id == row.id));
        }
        assert(out@[i + 2]@ == nav_row_of(rows@[i as int], selected, ren));
        assert forall|k: int| 0 <= k < i implies (#[trigger] out@[k + 2])@ == nav_row_of(rows@[k], selected, ren) by {
            assert(out@[k + 2] == before[k + 2]);
        }
        i = i + 1;
    }
    let ghost target = nav_rows_of(rows@, selected, ren);
    assert forall|k: int| 0 <= k < out@.len() implies out@.map_values(|x: NavRow| x@)[k] == target[k] by {
        if k >= 2 {
            assert(out@[(k - 2) + 2]@ == nav_row_of(rows@[k - 2], selected, ren));
        }
    }
    assert(out@.map_values(|x: NavRow| x@) =~= nav_rows_of(rows@, selected, ren));
    out
}

/// The day the date picker highlights: the task's plan date when it reads as
/// "MM-DD", else today when the picker shows today's month.
pub open spec fn picker_selection(plan_date: Option<Seq<char>>, view: (i32, u32), today: (i32, u32, u32)) -> Option<(u32, u32)> {
    match plan_date {
        Some(p) if month_day_of(p) is Some => month_day_of(p),
        _ => if today.1 == view.1 && today.0 == view.0 { Some((today.1, today.2)) } else { None },
    }
}

/// The highlighted day of the date picker, with today given.
pub fn picker_selection_at(plan_date: Option<&str>, view: (i32, u32), today: (i32, u32, u32)) -> (r: Option<(u32, u32)>)
    ensures
        r == picker_selection(match plan_date { Some(p) => Some(p@), None => None }, view, today),
{
    match plan_date {
        Some(p) => {
            match parse_month_day(p) {
                Some(md) => {
                    return Some(md);
                },
                None => {},
            }
        },
        None => {},
    }
    if today.1 == view.1 && today.0 == view.0 {
        Some((today.1, today.2))
    } else {
        None
    }
}

/// The highlighted day of the date picker, reading today from the clock;
/// whatever the clock reads, it is the selection for some UTC date.
pub fn picker_selection_now(plan_date: Option<&str>, view: (i32, u32)) -> (r: Option<(u32, u32)>)
    ensures
        exists|secs: u64| r == picker_selection(
            match plan_date { Some(p) => Some(p@), None => None },
            view,
            crate::calendar::ymd_of_secs(secs as int),
        ),
{
    let today = today_ymd();
    picker_selection_at(plan_date, view, today)
}

/// Decimal rendering of a signed year.
pub open spec fn year_text(y: int) -> Seq<char> {
    if y < 0 { seq!['-'] + decimal((-y) as nat) } else { decimal(y as nat) }
}

/// The title of the date picker: "YYYY-MM".
pub open spec fn month_title(y: i32, m: u32) -> Seq<char> {
    year_text(y as int) + seq!['-'] + two_digits(m as nat)
}

/// The date picker's title for the month shown.
pub fn calendar_title(y: i32, m: u32) -> (r: String)
    ensures
        r@ == month_title(y, m),
{
    let mut cs: Vec<char> = Vec::new();
    let mag: u64 = if y < 0 { (0i64 - (y as i64)) as u64 } else { y as u64 };
    if y < 0 {
        cs.push('-');
    }
    let mut ds = chars_of(decimal_string(mag).as_str());
    cs.append(&mut ds);
    cs.push('-');
    let mut ms = chars_of(two_digit_string(m as u64).as_str());
    cs.append(&mut ms);
    let r = string_of(&cs);
    proof {
        if y < 0 {
            assert(r@ =~= month_title(y, m));
        } else {
            assert(r@ =~= month_title(y, m));
        }
    }
    r
}

/// The plan date a picked day is stored as: "MM-DD".
pub open spec fn plan_day(m: u32, d: u32) -> Seq<char> {
    two_digits(m as nat) + seq!['-'] + two_digits(d as nat)
}

/// The "MM-DD" of a picked day.
pub fn plan_day_label(m: u32, d: u32) -> (r: String)
    ensures
        r@ == plan_day(m, d),
{
    let mut cs = chars_of(two_digit_string(m as u64).as_str());
    cs.push('-');
    let mut ds = chars_of(two_digit_string(d as u64).as_str());
    cs.append(&mut ds);
    let r = string_of(&cs);
    assert(r@ =~= plan_day(m, d));
    r
}


/// The active, suspended and done blocks split the visible tasks: every
/// visible task lies in exactly one of them, and each block holds only
/// visible tasks.
pub proof fn law_blocks_partition_visible(v: Seq<usize>, items: Seq<TodoInfo>)
    ensures
        in_block(v, items, 0).len() + in_block(v, items, 1).len() + in_block(v, items, 2).len() == v.len(),
        forall|b: int, k: int| 0 <= k < in_block(v, items, b).len() ==> v.contains(#[trigger] in_block(v, items, b)[k]),
    decreases v.len(),
{
    if v.len() > 0 {
        let w = v.drop_last();
        law_blocks_partition_visible(w, items);
        assert forall|b: int, k: int| 0 <= k < in_block(v, items, b).len() implies v.contains(#[trigger] in_block(v, items, b)[k]) by {
            if k < in_block(w, items, b).len() {
                let x = in_block(w, items, b)[k];
                assert(in_block(v, items, b)[k] == x);
                assert(w.contains(x));
                let j = choose|j: int| 0 <= j < w.len() && w[j] == x;
                assert(v[j] == x);
            } else {
                assert(in_block(v, items, b)[k] == v.last());
                assert(v[v.len() - 1] == v.last());
            }
        }
    }
}


/// The lead of a menu entry: a tick for the entry in force, two spaces
/// otherwise, so the labels line up.
pub open spec fn menu_mark(checked: bool) -> Seq<char> {
    if checked { seq!['✓', ' '] } else { seq![' ', ' '] }
}

/// The entries of the status filter menu with `current` in force: "全部"
/// and then the four states in menu order, each with its lead.
pub open spec fn status_filter_menu_of(current: StatusFilter) -> Seq<(StatusFilter, Seq<char>)> {
    seq![(StatusFilter::All, menu_mark(current == StatusFilter::All) + "全部"@)] + status_menu().map_values(
        |s: TodoState| (StatusFilter::Status(s), menu_mark(current == StatusFilter::Status(s)) + state_label(s)),
    )
}

/// One entry of the status filter menu.
fn filter_entry(f: StatusFilter, checked: bool, label: &str) -> (r: (StatusFilter, String))
    ensures
        r.0 == f,
        r.1@ == menu_mark(checked) + label@,
{
    let mut cs: Vec<char> = if checked { vec!['✓', ' '] } else { vec![' ', ' '] };
    let mut ls = chars_of(label);
    cs.append(&mut ls);
    (f, string_of(&cs))
}

/// The entries of the status filter menu, the one in force ticked.
pub fn status_filter_menu(current: StatusFilter) -> (r: Vec<(StatusFilter, String)>)
    ensures
        r@.len() == 5,
        forall|i: int| 0 <= i < 5 ==> (#[trigger] r@[i]).0 == status_filter_menu_of(current)[i].0
            && r@[i].1@ == status_filter_menu_of(current)[i].1,
{
    let all = current == StatusFilter::All;
    let mut r: Vec<(StatusFilter, String)> = Vec::new();
    r.push(filter_entry(StatusFilter::All, all, "全部"));
    let states = [TodoState::Pending, TodoState::InProgress, TodoState::Suspended, TodoState::Done];
    let mut k: usize = 0;
    while k < 4
        invariant
            k <= 4,
            r@.len() == k + 1,
            states@ == status_menu(),
            forall|i: int| 0 <= i < k + 1 ==> (#[trigger] r@[i]).0 == status_filter_menu_of(current)[i].0
                && r@[i].1@ == status_filter_menu_of(current)[i].1,
        decreases 4 - k,
    {
        let st = states[k];
        let f = StatusFilter::Status(st);
        let checked = current == f;
        r.push(filter_entry(f, checked, status_text(st)));
        k = k + 1;
    }
    r
}

} // verus!
