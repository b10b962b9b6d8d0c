//! The todo panel's data: tasks and categories as the daemon reports them,
//! the state a task is shown in, keyword and category filtering, and the
//! category tree.
use vstd::prelude::*;
use crate::agent::AgentKind;
use crate::text::{chars_of, contains_chars, contains_seq, to_lowercase, trim, trim_str, unicode_lowercase};

verus! {

broadcast use vstd::std_specs::hash::group_hash_axioms;

/// The point in time `completed_at_for_toggle` hands through.
#[verifier::external_type_specification]
#[verifier::external_body]
pub struct ExSystemTime(std::time::SystemTime);

/// A task as the daemon stores it.
#[derive(Debug, PartialEq)]
pub struct TodoInfo {
    pub id: i64,
    pub project_id: i64,
    pub text: String,
    pub done: bool,
    pub paused: bool,
    pub rank: i64,
    pub created_ms: u64,
    pub completed_at_ms: Option<u64>,
    pub plan_date: Option<String>,
    pub dispatch_session_id: Option<String>,
    pub dispatch_at_ms: Option<u64>,
    pub category_id: Option<i64>,
    pub assigned_agent: Option<AgentKind>,
}

impl Clone for TodoInfo {
    fn clone(&self) -> (r: Self)
        ensures
            r == *self,
    {
        TodoInfo {
            id: self.id,
            project_id: self.project_id,
            text: self.text.clone(),
            done: self.done,
            paused: self.paused,
            rank: self.rank,
            created_ms: self.created_ms,
            completed_at_ms: self.completed_at_ms,
            plan_date: match &self.plan_date {
                Some(s) => Some(s.clone()),
                None => None,
            },
            dispatch_session_id: match &self.dispatch_session_id {
                Some(s) => Some(s.clone()),
                None => None,
            },
            dispatch_at_ms: self.dispatch_at_ms,
            category_id: self.category_id,
            assigned_agent: self.assigned_agent,
        }
    }
}

/// A category node as the daemon stores it.
#[derive(Debug, PartialEq)]
pub struct CategoryInfo {
    pub id: i64,
    pub project_id: i64,
    pub parent_id: Option<i64>,
    pub name: String,
    pub rank: i64,
    pub created_ms: u64,
    pub auto_poll_enabled: bool,
}

impl Clone for CategoryInfo {
    fn clone(&self) -> (r: Self)
        ensures
            r == *self,
    {
        CategoryInfo {
            id: self.id,
            project_id: self.project_id,
            parent_id: self.parent_id,
            name: self.name.clone(),
            rank: self.rank,
            created_ms: self.created_ms,
            auto_poll_enabled: self.auto_poll_enabled,
        }
    }
}

/// The state a task is shown in.
#[derive(Debug, Clone, Copy, PartialEq, Eq, Structural)]
pub enum TodoState {
    Pending,
    InProgress,
    Done,
    Suspended,
}

/// The view mode of the right-hand area.
#[derive(Debug, Clone, Copy, PartialEq, Eq, Structural)]
pub enum TodoView {
    List,
    Kanban,
}

/// The category the list is narrowed to: everything, the tasks without a
/// category, or a category node with all its descendants.
#[derive(Debug, Clone, Copy, PartialEq, Eq, Structural)]
pub enum CategoryFilter {
    All,
    Uncategorized,
    Node(i64),
}

/// The task state the list is narrowed to.
#[derive(Debug, Clone, Copy, PartialEq, Eq, Structural)]
pub enum StatusFilter {
    All,
    Status(TodoState),
}

/// A drag of an active task: the index it was picked up at and the index it
/// would be dropped after (`usize::MAX`: after the active block).
#[derive(Debug, Clone, Copy, PartialEq, Eq, Structural)]
pub struct TodoDrag {
    pub source_idx: usize,
    pub target_idx: usize,
}

/// The state a task is shown in: done first, then suspended, then in
/// progress when it was dispatched to a session that is still alive, else
/// pending.
pub open spec fn display_state(item: TodoInfo, target_alive: bool) -> TodoState {
    if item.done {
        TodoState::Done
    } else if item.paused {
        TodoState::Suspended
    } else if item.dispatch_session_id is Some && target_alive {
        TodoState::InProgress
    } else {
        TodoState::Pending
    }
}

/// `todo_display_state`: the state `item` is shown in.
pub fn todo_display_state(item: &TodoInfo, target_alive: bool) -> (r: TodoState)
    ensures
        r == display_state(*item, target_alive),
{
    if item.done {
        return TodoState::Done;
    }
    if item.paused {
        return TodoState::Suspended;
    }
    if item.dispatch_session_id.is_some() && target_alive {
        TodoState::InProgress
    } else {
        TodoState::Pending
    }
}

/// A task of the active block (neither done nor suspended): the ones that can
/// be dragged into a new order.
pub open spec fn active(item: TodoInfo) -> bool {
    !item.done && !item.paused
}

/// Whether `item` belongs to the active block.
pub fn is_active_todo(item: &TodoInfo) -> (r: bool)
    ensures
        r == active(*item),
{
    !item.done && !item.paused
}

/// The keyword a query filters by: trimmed, then lower-cased.
pub open spec fn query_key(query: Seq<char>) -> Seq<char> {
    unicode_lowercase(trim(query))
}

/// A task text matches a keyword when the keyword is empty or occurs in the
/// lower-cased text.
pub open spec fn text_matches(text: Seq<char>, key: Seq<char>) -> bool {
    key.len() == 0 || contains_seq(unicode_lowercase(text), key)
}

/// The indices of the tasks whose text matches `key`, in order.
pub open spec fn hits(items: Seq<TodoInfo>, key: Seq<char>) -> Seq<usize>
    decreases items.len(),
{
    if items.len() == 0 {
        Seq::empty()
    } else {
        let h = hits(items.drop_last(), key);
        if text_matches(items.last().text@, key) {
            h.push((items.len() - 1) as usize)
        } else {
            h
        }
    }
}

/// `filter_todos`: the indices of the tasks whose text contains the query,
/// case-insensitively; a blank query keeps every task.
pub fn filter_todos(items: &[TodoInfo], query: &str) -> (r: Vec<usize>)
    ensures
        r@ == hits(items@, query_key(query@)),
{
    let trimmed = trim_str(query);
    let key_s = to_lowercase(trimmed.as_str());
    let key = chars_of(key_s.as_str());
    let mut r: Vec<usize> = Vec::new();
    let mut i: usize = 0;
    assert(items@.take(0) =~= Seq::<TodoInfo>::empty());
    while i < items.len()
        invariant
            i <= items@.len(),
            key@ == query_key(query@),
            r@ == hits(items@.take(i as int), key@),
        decreases items@.len() - i,
    {
        let lower = to_lowercase(items[i].text.as_str());
        let text = chars_of(lower.as_str());
        let keep = key.len() == 0 || contains_chars(&text, &key);
        assert(items@.take(i + 1).drop_last() =~= items@.take(i as int));
        if keep {
            r.push(i);
        }
        i = i + 1;
    }
    assert(items@.take(items@.len() as int) =~= items@);
    r
}

/// `completed_at_for_toggle`: the completion time a task gets when its done
/// flag becomes `done`: `now` when completed, nothing when reopened.
pub fn completed_at_for_toggle(done: bool, now: std::time::SystemTime) -> (r: Option<std::time::SystemTime>)
    ensures
        r == if done { Some(now) } else { None::<std::time::SystemTime> },
{
    if done {
        Some(now)
    } else {
        None
    }
}

/// The category at position `k` of `order` hangs under `root` or under a
/// category listed before it.
pub open spec fn derived_at(cats: Seq<CategoryInfo>, root: i64, order: Seq<i64>, k: int) -> bool {
    exists|j: int|
        0 <= j < cats.len() && #[trigger] cats[j].id == order[k] && (cats[j].parent_id matches Some(p) && (p
            == root || order.take(k).contains(p)))
}

/// `order` lists categories reached from `root` by going down child links,
/// each after the one it hangs under.
pub open spec fn derivation(cats: Seq<CategoryInfo>, root: i64, order: Seq<i64>) -> bool {
    forall|k: int| 0 <= k < order.len() ==> #[trigger] derived_at(cats, root, order, k)
}

/// The descendants of `root`: every category reached from it by going down
/// one or more child links.
pub open spec fn descendants(cats: Seq<CategoryInfo>, root: i64) -> Set<i64> {
    Set::new(|x: i64| exists|order: Seq<i64>| derivation(cats, root, order) && order.contains(x))
}

/// The ids of the categories.
pub open spec fn category_id_set(cats: Seq<CategoryInfo>) -> Set<i64> {
    cats.map_values(|c: CategoryInfo| c.id).to_set()
}

/// A set closed under going down child links from `root` and its own members
/// holds every category of every derivation.
proof fn lemma_closed_holds_derivation(cats: Seq<CategoryInfo>, root: i64, out: Set<i64>, order: Seq<i64>, k: int)
    requires
        derivation(cats, root, order),
        0 <= k < order.len(),
        forall|j: int|
            0 <= j < cats.len() && (cats[j].parent_id matches Some(p) && (p == root || out.contains(p))) ==> out.contains(
                #[trigger] cats[j].id),
    ensures
        out.contains(order[k]),
    decreases k,
{
    assert(derived_at(cats, root, order, k));
    let j = choose|j: int|
        0 <= j < cats.len() && #[trigger] cats[j].id == order[k] && (cats[j].parent_id matches Some(p) && (p
            == root || order.take(k).contains(p)));
    let p = cats[j].parent_id.unwrap();
    if p != root {
        let m = choose|m: int| 0 <= m < order.take(k).len() && order.take(k)[m] == p;
        assert(order[m] == p);
        lemma_closed_holds_derivation(cats, root, out, order, m);
    }
}

/// Extending a derivation by a category hanging under `root` or under one of
/// its members gives a derivation.
proof fn lemma_derivation_push(cats: Seq<CategoryInfo>, root: i64, order: Seq<i64>, j: int)
    requires
        derivation(cats, root, order),
        0 <= j < cats.len(),
        cats[j].parent_id matches Some(p) && (p == root || order.contains(p)),
    ensures
        derivation(cats, root, order.push(cats[j].id)),
{
    let o2 = order.push(cats[j].id);
    assert forall|k: int| 0 <= k < o2.len() implies #[trigger] derived_at(cats, root, o2, k) by {
        if k < order.len() {
            assert(derived_at(cats, root, order, k));
            assert(o2.take(k) =~= order.take(k));
            assert(o2[k] == order[k]);
        } else {
            assert(o2.take(k) =~= order);
            assert(o2[k] == cats[j].id);
        }
    }
}

/// `category_descendants`: the ids of every category below `root` (by child
/// links, any depth); `root` itself is not among them unless a chain of
/// child links leads back to it.
pub fn category_descendants(categories: &[CategoryInfo], root: i64) -> (r: std::collections::HashSet<i64>)
    ensures
        r@ == descendants(categories@, root),
{
    let ghost cats = categories@;
    let ghost ids = category_id_set(cats);
    let n = categories.len();
    proof {
        cats.map_values(|c: CategoryInfo| c.id).lemma_cardinality_of_set();
    }
    let mut out: std::collections::HashSet<i64> = std::collections::HashSet::new();
    let mut frontier: Vec<i64> = Vec::new();
    frontier.push(root);
    let ghost mut order: Seq<i64> = Seq::empty();
    assert(out@ =~= order.to_set());
    assert(frontier@[0] == root);
    while frontier.len() > 0
        invariant
            cats == categories@,
            n == cats.len(),
            ids == category_id_set(cats),
            ids.len() <= n,
            ids.finite(),
            derivation(cats, root, order),
            out@ == order.to_set(),
            out@.subset_of(ids),
            forall|f: int| 0 <= f < frontier@.len() ==> (#[trigger] frontier@[f] == root || out@.contains(frontier@[f])),
            forall|j: int|
                0 <= j < n && (cats[j].parent_id matches Some(p) && (p == root || out@.contains(p)) && !frontier@.contains(p))
                    ==> out@.contains(#[trigger] cats[j].id),
        decreases n - out@.len(), frontier@.len(),
    {
        let ghost fr_before = frontier@;
        let node = frontier.pop().unwrap();
        let ghost base = frontier@;
        let ghost out0 = out@;
        assert(fr_before =~= base.push(node));
        assert(fr_before[fr_before.len() - 1] == node);
        let mut j: usize = 0;
        while j < n
            invariant
                cats == categories@,
                n == cats.len(),
                ids == category_id_set(cats),
                ids.len() <= n,
                ids.finite(),
                j <= n,
                node == root || out@.contains(node),
                derivation(cats, root, order),
                out@ == order.to_set(),
                out@.subset_of(ids),
                out0.subset_of(out@),
                frontier@.len() >= base.len(),
                frontier@.take(base.len() as int) == base,
                forall|f: int| base.len() <= f < frontier@.len() ==> (#[trigger] out@.contains(frontier@[f])),
                forall|x: i64| #[trigger] out@.contains(x) && !out0.contains(x) ==> frontier@.subrange(base.len() as int, frontier@.len() as int).contains(x),
                forall|f: int| 0 <= f < frontier@.len() ==> (#[trigger] frontier@[f] == root || out@.contains(frontier@[f])),
                out@.len() == out0.len() + (frontier@.len() - base.len()),
                forall|jj: int| 0 <= jj < j && cats[jj].parent_id == Some(node) ==> out@.contains(#[trigger] cats[jj].id),
                forall|jj: int|
                    0 <= jj < n && (cats[jj].parent_id matches Some(p) && (p == root || out0.contains(p)) && !(base.push(node)).contains(p))
                        ==> out@.contains(#[trigger] cats[jj].id),
            decreases n - j,
        {
            if categories[j].parent_id == Some(node) {
                let child = categories[j].id;
                let ghost before = out@;
                proof {
                    assert(cats.map_values(|c: CategoryInfo| c.id)[j as int] == child);
                    assert(ids.contains(child));
                    vstd::set_lib::lemma_len_subset(out@, ids);
                }
                if out.insert(child) {
                    proof {
                        assert(order.to_set().contains(node) ==> order.contains(node));
                        lemma_derivation_push(cats, root, order, j as int);
                        let o2 = order.push(child);
                        assert forall|x: i64| o2.contains(x) <==> (order.contains(x) || x == child) by {
                            if order.contains(x) {
                                let m = choose|m: int| 0 <= m < order.len() && order[m] == x;
                                assert(o2[m] == x);
                            }
                            if x == child {
                                assert(o2[order.len() as int] == x);
                            }
                            if o2.contains(x) && x != child {
                                let m = choose|m: int| 0 <= m < o2.len() && o2[m] == x;
                                assert(order[m] == x);
                            }
                        }
                        order = o2;
                        assert(out@ =~= order.to_set());
                    }
                    let ghost fr0 = frontier@;
                    frontier.push(child);
                    assert(frontier@.take(base.len() as int) =~= fr0.take(base.len() as int));
                    proof {
                        let old_new = fr0.subrange(base.len() as int, fr0.len() as int);
                        let new_new = frontier@.subrange(base.len() as int, frontier@.len() as int);
                        assert(new_new =~= old_new.push(child));
                        assert forall|x: i64| #[trigger] out@.contains(x) && !out0.contains(x) implies new_new.contains(x) by {
                            if x == child {
                                assert(new_new[new_new.len() - 1] == x);
                            } else {
                                assert(before.contains(x));
                                let m = choose|m: int| 0 <= m < old_new.len() && old_new[m] == x;
                                assert(new_new[m] == x);
                            }
                        }
                    }
                }
            }
            j = j + 1;
        }
        proof {
            vstd::set_lib::lemma_len_subset(out@, ids);
            assert forall|jj: int|
                0 <= jj < n && (cats[jj].parent_id matches Some(p) && (p == root || out@.contains(p)) && !frontier@.contains(p))
                    implies out@.contains(#[trigger] cats[jj].id) by {
                let p = cats[jj].parent_id.unwrap();
                if p == node {
                } else if p == root || out0.contains(p) {
                    if base.contains(p) {
                        let f = choose|f: int| 0 <= f < base.len() && base[f] == p;
                        assert(frontier@.take(base.len() as int)[f] == p);
                        assert(frontier@[f] == p);
                    }
                    assert(!(base.push(node)).contains(p));
                } else {
                    let nn = frontier@.subrange(base.len() as int, frontier@.len() as int);
                    assert(nn.contains(p));
                    let m = choose|m: int| 0 <= m < nn.len() && nn[m] == p;
                    assert(frontier@[base.len() + m] == p);
                    assert(frontier@.contains(p));
                }
            }
        }
    }
    proof {
        assert forall|x: i64| out@.contains(x) <==> descendants(cats, root).contains(x) by {
            if out@.contains(x) {
                assert(order.contains(x));
            }
            if descendants(cats, root).contains(x) {
                let o = choose|o: Seq<i64>| derivation(cats, root, o) && o.contains(x);
                let k = choose|k: int| 0 <= k < o.len() && o[k] == x;
                lemma_closed_holds_derivation(cats, root, out@, o, k);
            }
        }
        assert(out@ =~= descendants(cats, root));
    }
    out
}

/// Whether task `t` is shown under the category filter.
pub open spec fn in_category(t: TodoInfo, cats: Seq<CategoryInfo>, filter: CategoryFilter) -> bool {
    match filter {
        CategoryFilter::All => true,
        CategoryFilter::Uncategorized => t.category_id is None,
        CategoryFilter::Node(root) => t.category_id matches Some(c) && (c == root || descendants(cats, root).contains(c)),
    }
}

/// The ids of the tasks shown under the category filter.
pub open spec fn ids_in_category(todos: Seq<TodoInfo>, cats: Seq<CategoryInfo>, filter: CategoryFilter) -> Set<i64> {
    Set::new(|id: i64| exists|i: int| 0 <= i < todos.len() && #[trigger] todos[i].id == id && in_category(todos[i], cats, filter))
}

/// `filter_todos_by_category`: the ids of the tasks the category filter
/// shows: all of them, the uncategorized ones, or those filed under the
/// selected node or any of its descendants.
pub fn filter_todos_by_category(todos: &[TodoInfo], categories: &[CategoryInfo], filter: CategoryFilter) -> (r: std::collections::HashSet<i64>)
    ensures
        r@ == ids_in_category(todos@, categories@, filter),
{
    let allowed: std::collections::HashSet<i64> = match filter {
        CategoryFilter::Node(root) => {
            let mut a = category_descendants(categories, root);
            a.insert(root);
            a
        },
        _ => std::collections::HashSet::new(),
    };
    let mut out: std::collections::HashSet<i64> = std::collections::HashSet::new();
    let mut i: usize = 0;
    while i < todos.len()
        invariant
            i <= todos@.len(),
            filter matches CategoryFilter::Node(root) ==> allowed@ == descendants(categories@, root).insert(root),
            forall|id: i64| out@.contains(id) <==> exists|k: int| 0 <= k < i && #[trigger] todos@[k].id == id && in_category(todos@[k], categories@, filter),
        decreases todos@.len() - i,
    {
        let t = &todos[i];
        let keep = match filter {
            CategoryFilter::All => true,
            CategoryFilter::Uncategorized => t.category_id.is_none(),
            CategoryFilter::Node(_) => match t.category_id {
                Some(c) => allowed.contains(&c),
                None => false,
            },
        };
        assert(keep == in_category(todos@[i as int], categories@, filter));
        let ghost before = out@;
        if keep {
            out.insert(t.id);
        }
        assert forall|id: i64| out@.contains(id) <==> exists|k: int| 0 <= k < i + 1 && #[trigger] todos@[k].id == id && in_category(todos@[k], categories@, filter) by {
            if exists|k: int| 0 <= k < i + 1 && #[trigger] todos@[k].id == id && in_category(todos@[k], categories@, filter) {
                let k = choose|k: int| 0 <= k < i + 1 && #[trigger] todos@[k].id == id && in_category(todos@[k], categories@, filter);
                if k < i {
                    assert(before.contains(id));
                }
            }
        }
        i = i + 1;
    }
    assert(out@ =~= ids_in_category(todos@, categories@, filter));
    out
}

/// One row of the category tree as the left panel shows it.
#[derive(Debug, PartialEq)]
pub struct CategoryTreeRow {
    pub id: i64,
    pub name: String,
    pub depth: usize,
    pub has_children: bool,
    pub expanded: bool,
}

impl Clone for CategoryTreeRow {
    fn clone(&self) -> (r: Self)
        ensures
            r == *self,
    {
        CategoryTreeRow {
            id: self.id,
            name: self.name.clone(),
            depth: self.depth,
            has_children: self.has_children,
            expanded: self.expanded,
        }
    }
}

/// A category tree row by value.
pub struct CategoryRowView {
    pub id: i64,
    pub name: Seq<char>,
    pub depth: int,
    pub has_children: bool,
    pub expanded: bool,
}

impl View for CategoryTreeRow {
    type V = CategoryRowView;

    open spec fn view(&self) -> CategoryRowView {
        CategoryRowView {
            id: self.id,
            name: self.name@,
            depth: self.depth as int,
            has_children: self.has_children,
            expanded: self.expanded,
        }
    }
}

/// Category rows by value.
pub open spec fn category_rows_view(s: Seq<CategoryTreeRow>) -> Seq<CategoryRowView> {
    s.map_values(|r: CategoryTreeRow| r@)
}

/// The categories directly under `parent` (`None`: the top level), in their
/// order in `cats`.
pub open spec fn children_in(cats: Seq<CategoryInfo>, parent: Option<i64>) -> Seq<CategoryInfo>
    decreases cats.len(),
{
    if cats.len() == 0 {
        Seq::empty()
    } else if cats.last().parent_id == parent {
        children_in(cats.drop_last(), parent).push(cats.last())
    } else {
        children_in(cats.drop_last(), parent)
    }
}

/// `x` put into `r` after the trailing run of categories ranked above it.
pub open spec fn insert_by_rank(r: Seq<CategoryInfo>, x: CategoryInfo) -> Seq<CategoryInfo>
    decreases r.len(),
{
    if r.len() == 0 || r.last().rank <= x.rank {
        r.push(x)
    } else {
        insert_by_rank(r.drop_last(), x).push(r.last())
    }
}

/// `s` stably sorted by rank: each category in turn is put after every
/// earlier one of no greater rank.
pub open spec fn sort_by_rank(s: Seq<CategoryInfo>) -> Seq<CategoryInfo>
    decreases s.len(),
{
    if s.len() == 0 {
        Seq::empty()
    } else {
        insert_by_rank(sort_by_rank(s.drop_last()), s.last())
    }
}

/// The children of `parent` in the order the tree shows them.
pub open spec fn siblings(cats: Seq<CategoryInfo>, parent: Option<i64>) -> Seq<CategoryInfo> {
    sort_by_rank(children_in(cats, parent))
}

/// Whether some category hangs under `id`.
pub open spec fn has_child(cats: Seq<CategoryInfo>, id: i64) -> bool {
    exists|j: int| 0 <= j < cats.len() && #[trigger] cats[j].parent_id == Some(id)
}

/// The row of category `c` at `depth`.
pub open spec fn category_row(cats: Seq<CategoryInfo>, expanded: Set<i64>, c: CategoryInfo, depth: int) -> CategoryRowView {
    CategoryRowView {
        id: c.id,
        name: c.name@,
        depth,
        has_children: has_child(cats, c.id),
        expanded: expanded.contains(c.id),
    }
}

/// The rows of the categories `s` at `depth`, each followed by the rows
/// beneath it when it is expanded; `fuel` bounds the levels still to walk.
pub open spec fn category_rows_of(cats: Seq<CategoryInfo>, expanded: Set<i64>, s: Seq<CategoryInfo>, depth: int, fuel: nat) -> Seq<CategoryRowView>
    decreases fuel, s.len(),
{
    if s.len() == 0 {
        Seq::empty()
    } else {
        let c = s.last();
        let below = if expanded.contains(c.id) {
            category_rows_from(cats, expanded, Some(c.id), depth + 1, fuel)
        } else {
            Seq::empty()
        };
        category_rows_of(cats, expanded, s.drop_last(), depth, fuel).push(category_row(cats, expanded, c, depth)) + below
    }
}

/// The rows beneath `parent`.
pub open spec fn category_rows_from(cats: Seq<CategoryInfo>, expanded: Set<i64>, parent: Option<i64>, depth: int, fuel: nat) -> Seq<CategoryRowView>
    decreases fuel, 0nat,
{
    if fuel == 0 {
        Seq::empty()
    } else {
        category_rows_of(cats, expanded, siblings(cats, parent), depth, (fuel - 1) as nat)
    }
}

/// The category tree rows shown for `cats` with `expanded` open: depth first
/// from the top level, siblings by rank. The walk descends at most as many
/// levels as there are categories, which it never needs to unless a chain of
/// parent links runs in a circle.
pub open spec fn visible_categories(cats: Seq<CategoryInfo>, expanded: Set<i64>) -> Seq<CategoryRowView> {
    category_rows_from(cats, expanded, None, 0, cats.len())
}

/// Inserting from the back, past the trailing run ranked above `x`, is
/// inserting at the position found.
proof fn lemma_insert_by_rank_at(r: Seq<CategoryInfo>, x: CategoryInfo, pos: int)
    requires
        0 <= pos <= r.len(),
        forall|k: int| pos <= k < r.len() ==> (#[trigger] r[k]).rank > x.rank,
        pos == 0 || r[pos - 1].rank <= x.rank,
    ensures
        insert_by_rank(r, x) == r.insert(pos, x),
    decreases r.len(),
{
    if pos == r.len() {
        assert(r.insert(pos, x) =~= r.push(x));
    } else {
        lemma_insert_by_rank_at(r.drop_last(), x, pos);
        assert(r.insert(pos, x) =~= r.drop_last().insert(pos, x).push(r.last()));
    }
}

/// Sorts categories by rank, stably.
fn sort_categories(s: &Vec<CategoryInfo>) -> (r: Vec<CategoryInfo>)
    ensures
        r@ == sort_by_rank(s@),
{
    let mut r: Vec<CategoryInfo> = Vec::new();
    let mut i: usize = 0;
    assert(s@.take(0) =~= Seq::<CategoryInfo>::empty());
    while i < s.len()
        invariant
            i <= s.len(),
            r@ == sort_by_rank(s@.take(i as int)),
        decreases s.len() - i,
    {
        let x = s[i].clone();
        let mut pos: usize = r.len();
        while pos > 0 && r[pos - 1].rank > x.rank
            invariant
                pos <= r.len(),
                forall|k: int| pos <= k < r.len() ==> (#[trigger] r@[k]).rank > x.rank,
            decreases pos,
        {
            pos = pos - 1;
        }
        proof {
            lemma_insert_by_rank_at(r@, x, pos as int);
            assert(s@.take(i + 1).drop_last() =~= s@.take(i as int));
        }
        r.insert(pos, x);
        i = i + 1;
    }
    assert(s@.take(s.len() as int) =~= s@);
    r
}

/// The categories directly under `parent`, in their order in `cats`.
fn children_of(cats: &[CategoryInfo], parent: Option<i64>) -> (r: Vec<CategoryInfo>)
    ensures
        r@ == children_in(cats@, parent),
{
    let mut r: Vec<CategoryInfo> = Vec::new();
    let mut i: usize = 0;
    assert(cats@.take(0) =~= Seq::<CategoryInfo>::empty());
    while i < cats.len()
        invariant
            i <= cats@.len(),
            r@ == children_in(cats@.take(i as int), parent),
        decreases cats@.len() - i,
    {
        assert(cats@.take(i + 1).drop_last() =~= cats@.take(i as int));
        if cats[i].parent_id == parent {
            r.push(cats[i].clone());
        }
        i = i + 1;
    }
    assert(cats@.take(cats@.len() as int) =~= cats@);
    r
}

/// Whether some category hangs under `id`.
fn has_child_exec(cats: &[CategoryInfo], id: i64) -> (r: bool)
    ensures
        r == has_child(cats@, id),
{
    let mut i: usize = 0;
    while i < cats.len()
        invariant
            i <= cats@.len(),
            forall|j: int| 0 <= j < i ==> cats@[j].parent_id != Some(id),
        decreases cats@.len() - i,
    {
        if cats[i].parent_id == Some(id) {
            return true;
        }
        i = i + 1;
    }
    false
}

/// Appends the rows beneath `parent`.
fn walk_categories(
    cats: &[CategoryInfo],
    expanded: &std::collections::HashSet<i64>,
    parent: Option<i64>,
    depth: usize,
    fuel: usize,
    out: &mut Vec<CategoryTreeRow>,
)
    requires
        depth + fuel <= usize::MAX,
    ensures
        category_rows_view(final(out)@) == category_rows_view(old(out)@) + category_rows_from(cats@, expanded@, parent, depth as int, fuel as nat),
    decreases fuel,
{
    let ghost start = category_rows_view(out@);
    if fuel == 0 {
        assert(category_rows_view(out@) =~= start + Seq::<CategoryRowView>::empty());
        return;
    }
    let kids = children_of(cats, parent);
    let sibs = sort_categories(&kids);
    let ghost ss = sibs@;
    let mut i: usize = 0;
    assert(ss.take(0) =~= Seq::<CategoryInfo>::empty());
    assert(category_rows_view(out@) =~= start + category_rows_of(cats@, expanded@, ss.take(0), depth as int, (fuel - 1) as nat));
    while i < sibs.len()
        invariant
            i <= sibs.len(),
            ss == sibs@,
            ss == siblings(cats@, parent),
            depth + fuel <= usize::MAX,
            fuel > 0,
            category_rows_view(out@) == start + category_rows_of(cats@, expanded@, ss.take(i as int), depth as int, (fuel - 1) as nat),
        decreases sibs.len() - i,
    {
        let c = &sibs[i];
        let is_expanded = expanded.contains(&c.id);
        let has_children = has_child_exec(cats, c.id);
        let ghost before_push = category_rows_view(out@);
        out.push(CategoryTreeRow {
            id: c.id,
            name: c.name.clone(),
            depth: depth,
            has_children: has_children,
            expanded: is_expanded,
        });
        assert(category_rows_view(out@) =~= before_push.push(category_row(cats@, expanded@, ss[i as int], depth as int)));
        let ghost after_push = category_rows_view(out@);
        if is_expanded {
            walk_categories(cats, expanded, Some(c.id), depth + 1, fuel - 1, out);
        }
        proof {
            let pre = ss.take(i as int);
            let post = ss.take(i + 1);
            assert(post.drop_last() =~= pre);
            assert(post.last() == ss[i as int]);
            let below = if expanded@.contains(ss[i as int].id) {
                category_rows_from(cats@, expanded@, Some(ss[i as int].id), depth + 1, (fuel - 1) as nat)
            } else {
                Seq::<CategoryRowView>::empty()
            };
            assert(category_rows_of(cats@, expanded@, post, depth as int, (fuel - 1) as nat)
                == category_rows_of(cats@, expanded@, pre, depth as int, (fuel - 1) as nat).push(category_row(cats@, expanded@, ss[i as int], depth as int)) + below);
            assert(category_rows_view(out@) =~= after_push + below);
            assert(category_rows_view(out@) =~= start + category_rows_of(cats@, expanded@, post, depth as int, (fuel - 1) as nat));
        }
        i = i + 1;
    }
    assert(ss.take(sibs.len() as int) =~= ss);
}

/// `visible_category_rows`: the category tree flattened for display: depth
/// first from the top level, siblings ordered by rank, the children of a
/// node shown only when it is expanded; every row says whether its node has
/// children at all.
pub fn visible_category_rows(categories: &[CategoryInfo], expanded: &std::collections::HashSet<i64>) -> (r: Vec<CategoryTreeRow>)
    ensures
        category_rows_view(r@) == visible_categories(categories@, expanded@),
{
    let mut rows: Vec<CategoryTreeRow> = Vec::new();
    walk_categories(categories, expanded, None, 0, categories.len(), &mut rows);
    assert(category_rows_view(Seq::<CategoryTreeRow>::empty()) =~= Seq::<CategoryRowView>::empty());
    assert(category_rows_view(rows@) =~= visible_categories(categories@, expanded@));
    rows
}

/// A blank query keeps every task: the hits of the empty keyword are all the
/// indices in order.
pub proof fn law_empty_keyword_keeps_all(items: Seq<TodoInfo>)
    ensures
        hits(items, Seq::<char>::empty()) == Seq::new(items.len(), |i: int| i as usize),
    decreases items.len(),
{
    if items.len() > 0 {
        law_empty_keyword_keeps_all(items.drop_last());
        assert(hits(items, Seq::<char>::empty()) =~= Seq::new(items.len(), |i: int| i as usize));
    }
}

/// Every hit is the index of a task whose text matches, and the hits come in
/// increasing order.
pub proof fn law_hits_are_matching_indices(items: Seq<TodoInfo>, key: Seq<char>)
    requires
        items.len() <= usize::MAX,
    ensures
        forall|k: int| 0 <= k < hits(items, key).len() ==> (#[trigger] hits(items, key)[k]) < items.len()
            && text_matches(items[hits(items, key)[k] as int].text@, key),
        forall|a: int, b: int| 0 <= a < b < hits(items, key).len() ==> #[trigger] hits(items, key)[a] < #[trigger] hits(items, key)[b],
    decreases items.len(),
{
    if items.len() > 0 {
        law_hits_are_matching_indices(items.drop_last(), key);
        let n = items.len();
        let h = hits(items.drop_last(), key);
        let full = hits(items, key);
        if text_matches(items.last().text@, key) {
            assert(full == h.push((n - 1) as usize));
        } else {
            assert(full == h);
        }
        assert forall|k: int| 0 <= k < full.len() implies (#[trigger] full[k]) < n && text_matches(items[full[k] as int].text@, key) by {
            if k < h.len() {
                assert(full[k] == h[k]);
                assert(items[h[k] as int] == items.drop_last()[h[k] as int]);
            } else {
                assert(full[k] == (n - 1) as usize);
            }
        }
        assert forall|a: int, b: int| 0 <= a < b < full.len() implies #[trigger] full[a] < #[trigger] full[b] by {
            if b < h.len() {
                assert(full[a] == h[a] && full[b] == h[b]);
            } else {
                assert(full[a] == h[a]);
                assert(h[a] < n - 1);
            }
        }
    }
}

/// The search ignores the letter case of the task texts: two task lists
/// whose texts are the same once lower-cased give the same hits for any
/// keyword.
pub proof fn law_search_ignores_text_case(items1: Seq<TodoInfo>, items2: Seq<TodoInfo>, key: Seq<char>)
    requires
        items1.len() == items2.len(),
        forall|i: int| 0 <= i < items1.len() ==> unicode_lowercase((#[trigger] items1[i]).text@) == unicode_lowercase(items2[i].text@),
    ensures
        hits(items1, key) == hits(items2, key),
    decreases items1.len(),
{
    if items1.len() > 0 {
        let a = items1.drop_last();
        let b = items2.drop_last();
        assert forall|i: int| 0 <= i < a.len() implies unicode_lowercase((#[trigger] a[i]).text@) == unicode_lowercase(b[i].text@) by {
            assert(a[i] == items1[i] && b[i] == items2[i]);
        }
        law_search_ignores_text_case(a, b, key);
        assert(items1.last() == items1[items1.len() - 1]);
    }
}

/// Task `k` is a hit for `query` exactly when the trimmed, lower-cased query
/// is empty or occurs in the lower-cased text of the task.
pub proof fn law_hit_iff_lowercase_text_contains_query(items: Seq<TodoInfo>, query: Seq<char>, k: int)
    requires
        items.len() <= usize::MAX,
        0 <= k < items.len(),
    ensures
        hits(items, query_key(query)).contains(k as usize) <==> (unicode_lowercase(trim(query)).len() == 0
            || contains_seq(unicode_lowercase(items[k].text@), unicode_lowercase(trim(query)))),
    decreases items.len(),
{
    let key = query_key(query);
    let n = items.len();
    let h = hits(items.drop_last(), key);
    let full = hits(items, key);
    law_hits_are_matching_indices(items.drop_last(), key);
    if text_matches(items.last().text@, key) {
        assert(full == h.push((n - 1) as usize));
    } else {
        assert(full == h);
    }
    if k == n - 1 {
        if h.contains(k as usize) {
            let q = choose|q: int| 0 <= q < h.len() && h[q] == k as usize;
            assert(h[q] < n - 1);
        }
        if full.contains(k as usize) && !text_matches(items.last().text@, key) {
            assert(h.contains(k as usize));
            let q = choose|q: int| 0 <= q < h.len() && h[q] == k as usize;
            assert(h[q] < n - 1);
        }
        assert(text_matches(items.last().text@, key) ==> full[h.len() as int] == k as usize);
    } else {
        law_hit_iff_lowercase_text_contains_query(items.drop_last(), query, k);
        assert(items.drop_last()[k] == items[k]);
        if full.contains(k as usize) {
            let q = choose|q: int| 0 <= q < full.len() && full[q] == k as usize;
            if q < h.len() {
                assert(full[q] == h[q]);
            }
        }
        if h.contains(k as usize) {
            let q = choose|q: int| 0 <= q < h.len() && h[q] == k as usize;
            assert(full[q] == h[q]);
        }
    }
}

proof fn lemma_insert_by_rank_sorted(r: Seq<CategoryInfo>, x: CategoryInfo)
    requires
        forall|a: int, b: int| 0 <= a < b < r.len() ==> (#[trigger] r[a]).rank <= (#[trigger] r[b]).rank,
    ensures
        insert_by_rank(r, x).len() == r.len() + 1,
        forall|a: int, b: int| 0 <= a < b < insert_by_rank(r, x).len() ==> (#[trigger] insert_by_rank(r, x)[a]).rank
            <= (#[trigger] insert_by_rank(r, x)[b]).rank,
        forall|a: int| 0 <= a < insert_by_rank(r, x).len() ==> r.contains(#[trigger] insert_by_rank(r, x)[a]) || insert_by_rank(r, x)[a] == x,
    decreases r.len(),
{
    let t = insert_by_rank(r, x);
    if r.len() == 0 || r.last().rank <= x.rank {
        assert forall|a: int| 0 <= a < t.len() - 1 implies t[a] == r[a] by {}
        assert forall|a: int| 0 <= a < t.len() - 1 implies r.contains(t[a]) by {
            assert(t[a] == r[a]);
        }
    } else {
        let d = r.drop_last();
        lemma_insert_by_rank_sorted(d, x);
        let u = insert_by_rank(d, x);
        assert(t == u.push(r.last()));
        assert forall|a: int| 0 <= a < u.len() implies (#[trigger] u[a]).rank <= r.last().rank by {
            if u[a] == x {
            } else if d.contains(u[a]) {
                let m = choose|m: int| 0 <= m < d.len() && d[m] == u[a];
                assert(r[m] == d[m]);
                assert(r[m].rank <= r[r.len() - 1].rank);
            }
        }
        assert forall|a: int| 0 <= a < t.len() implies r.contains(#[trigger] t[a]) || t[a] == x by {
            if a < u.len() {
                assert(t[a] == u[a]);
                if d.contains(u[a]) {
                    let m = choose|m: int| 0 <= m < d.len() && d[m] == u[a];
                    assert(r[m] == d[m]);
                }
            } else {
                assert(t[a] == r.last());
                assert(r[r.len() - 1] == r.last());
            }
        }
    }
}

/// Siblings are listed in rank order, and sorting loses no category.
pub proof fn law_siblings_in_rank_order(s: Seq<CategoryInfo>)
    ensures
        sort_by_rank(s).len() == s.len(),
        forall|a: int, b: int| 0 <= a < b < sort_by_rank(s).len() ==> (#[trigger] sort_by_rank(s)[a]).rank
            <= (#[trigger] sort_by_rank(s)[b]).rank,
        forall|a: int| 0 <= a < sort_by_rank(s).len() ==> s.contains(#[trigger] sort_by_rank(s)[a]),
    decreases s.len(), 1int,
{
    if s.len() > 0 {
        law_siblings_in_rank_order(s.drop_last());
        lemma_insert_by_rank_sorted(sort_by_rank(s.drop_last()), s.last());
    }
    lemma_sort_keeps_members(s);
}


/// Descendants of a descendant are descendants: the category filter of a
/// node covers every level below it.
pub proof fn law_descendants_transitive(cats: Seq<CategoryInfo>, root: i64, x: i64, y: i64)
    requires
        descendants(cats, root).contains(x),
        descendants(cats, x).contains(y),
    ensures
        descendants(cats, root).contains(y),
{
    let o1 = choose|order: Seq<i64>| derivation(cats, root, order) && order.contains(x);
    let o2 = choose|order: Seq<i64>| derivation(cats, x, order) && order.contains(y);
    let o = o1 + o2;
    assert forall|k: int| 0 <= k < o.len() implies #[trigger] derived_at(cats, root, o, k) by {
        if k < o1.len() {
            assert(derived_at(cats, root, o1, k));
            assert(o.take(k) =~= o1.take(k));
            assert(o[k] == o1[k]);
        } else {
            let k2 = k - o1.len();
            assert(derived_at(cats, x, o2, k2));
            let j = choose|j: int|
                0 <= j < cats.len() && #[trigger] cats[j].id == o2[k2] && (cats[j].parent_id matches Some(p) && (p
                    == x || o2.take(k2).contains(p)));
            let p = cats[j].parent_id.unwrap();
            assert(o.take(k) =~= o1 + o2.take(k2));
            assert(o[k] == o2[k2]);
            if p == x {
                let i = choose|i: int| 0 <= i < o1.len() && o1[i] == x;
                assert(o.take(k)[i] == x);
            } else {
                let i = choose|i: int| 0 <= i < o2.take(k2).len() && o2.take(k2)[i] == p;
                assert(o.take(k)[o1.len() + i] == p);
            }
            assert(cats[j].id == o[k]);
        }
    }
    let iy = choose|i: int| 0 <= i < o2.len() && o2[i] == y;
    assert(o[o1.len() + iy] == y);
    assert(derivation(cats, root, o) && o.contains(y));
}


/// Every category of `s` is one of `cats` and hangs directly under `parent`.
pub open spec fn under_parent(cats: Seq<CategoryInfo>, s: Seq<CategoryInfo>, parent: Option<i64>) -> bool {
    forall|i: int| 0 <= i < s.len() ==> cats.contains(#[trigger] s[i]) && s[i].parent_id == parent
}

/// Row `r` is the row of a category of `cats` that hangs under `parent` at
/// `depth`, or, deeper, under an expanded category.
pub open spec fn row_placed(cats: Seq<CategoryInfo>, expanded: Set<i64>, r: CategoryRowView, parent: Option<i64>, depth: int) -> bool {
    exists|c: CategoryInfo| #![trigger cats.contains(c)] cats.contains(c) && c.id == r.id && ((c.parent_id == parent && r.depth == depth)
        || (c.parent_id matches Some(p) && expanded.contains(p) && r.depth > depth))
}

proof fn lemma_children_under(cats: Seq<CategoryInfo>, parent: Option<i64>)
    ensures
        under_parent(cats, children_in(cats, parent), parent),
    decreases cats.len(),
{
    if cats.len() > 0 {
        let w = cats.drop_last();
        lemma_children_under(w, parent);
        let ch = children_in(cats, parent);
        assert forall|i: int| 0 <= i < ch.len() implies cats.contains(#[trigger] ch[i]) && ch[i].parent_id == parent by {
            if i < children_in(w, parent).len() {
                let x = children_in(w, parent)[i];
                assert(ch[i] == x);
                assert(w.contains(x));
                let k = choose|k: int| 0 <= k < w.len() && w[k] == x;
                assert(cats[k] == x);
            } else {
                assert(ch[i] == cats.last());
                assert(cats[cats.len() - 1] == cats.last());
            }
        }
    }
}

proof fn lemma_sort_keeps_members(s: Seq<CategoryInfo>)
    ensures
        forall|a: int| 0 <= a < sort_by_rank(s).len() ==> s.contains(#[trigger] sort_by_rank(s)[a]),
    decreases s.len(), 0int,
{
    if s.len() > 0 {
        let w = s.drop_last();
        lemma_sort_keeps_members(w);
        law_siblings_in_rank_order(w);
        lemma_insert_by_rank_sorted(sort_by_rank(w), s.last());
        assert forall|a: int| 0 <= a < sort_by_rank(s).len() implies s.contains(#[trigger] sort_by_rank(s)[a]) by {
            let x = sort_by_rank(s)[a];
            if x == s.last() {
                assert(s[s.len() - 1] == x);
            } else {
                assert(sort_by_rank(w).contains(x));
                let b = choose|b: int| 0 <= b < sort_by_rank(w).len() && sort_by_rank(w)[b] == x;
                assert(w.contains(x));
                let k = choose|k: int| 0 <= k < w.len() && w[k] == x;
                assert(s[k] == x);
            }
        }
    }
}

proof fn lemma_rows_from_placed(cats: Seq<CategoryInfo>, expanded: Set<i64>, parent: Option<i64>, depth: int, fuel: nat)
    ensures
        forall|k: int| 0 <= k < category_rows_from(cats, expanded, parent, depth, fuel).len() ==> row_placed(
            cats, expanded, #[trigger] category_rows_from(cats, expanded, parent, depth, fuel)[k], parent, depth),
    decreases fuel, 0nat,
{
    if fuel > 0 {
        let ch = children_in(cats, parent);
        lemma_children_under(cats, parent);
        lemma_sort_keeps_members(ch);
        let sib = siblings(cats, parent);
        assert forall|i: int| 0 <= i < sib.len() implies cats.contains(#[trigger] sib[i]) && sib[i].parent_id == parent by {
            assert(ch.contains(sib[i]));
            let k = choose|k: int| 0 <= k < ch.len() && ch[k] == sib[i];
            assert(cats.contains(ch[k]));
        }
        assert(under_parent(cats, sib, parent));
        lemma_rows_of_placed(cats, expanded, sib, parent, depth, (fuel - 1) as nat);
        assert(category_rows_from(cats, expanded, parent, depth, fuel) == category_rows_of(cats, expanded, sib, depth, (fuel - 1) as nat));
    }
}

proof fn lemma_rows_of_placed(cats: Seq<CategoryInfo>, expanded: Set<i64>, s: Seq<CategoryInfo>, parent: Option<i64>, depth: int, fuel: nat)
    requires
        under_parent(cats, s, parent),
    ensures
        forall|k: int| 0 <= k < category_rows_of(cats, expanded, s, depth, fuel).len() ==> row_placed(
            cats, expanded, #[trigger] category_rows_of(cats, expanded, s, depth, fuel)[k], parent, depth),
    decreases fuel, s.len(),
{
    if s.len() > 0 {
        let w = s.drop_last();
        let c = s.last();
        assert(under_parent(cats, w, parent)) by {
            assert forall|i: int| 0 <= i < w.len() implies cats.contains(#[trigger] w[i]) && w[i].parent_id == parent by {
                assert(w[i] == s[i]);
            }
        }
        assert(cats.contains(s[s.len() - 1]));
        lemma_rows_of_placed(cats, expanded, w, parent, depth, fuel);
        let front = category_rows_of(cats, expanded, w, depth, fuel);
        let row = category_row(cats, expanded, c, depth);
        let below = if expanded.contains(c.id) {
            category_rows_from(cats, expanded, Some(c.id), depth + 1, fuel)
        } else {
            Seq::empty()
        };
        if expanded.contains(c.id) {
            lemma_rows_from_placed(cats, expanded, Some(c.id), depth + 1, fuel);
        }
        let all = category_rows_of(cats, expanded, s, depth, fuel);
        assert(all == front.push(row) + below);
        assert forall|k: int| 0 <= k < all.len() implies row_placed(cats, expanded, #[trigger] all[k], parent, depth) by {
            if k < front.len() {
                assert(all[k] == front[k]);
                assert(row_placed(cats, expanded, front[k], parent, depth));
            } else if k == front.len() {
                assert(all[k] == row);
                assert(cats.contains(c) && c.id == row.id && c.parent_id == parent && row.depth == depth);
            } else {
                let b = k - front.len() - 1;
                assert(all[k] == below[b]);
                assert(row_placed(cats, expanded, below[b], Some(c.id), depth + 1));
                let d = choose|d: CategoryInfo| #![trigger cats.contains(d)] cats.contains(d) && d.id == below[b].id && ((d.parent_id == Some(c.id) && below[b].depth == depth + 1)
                    || (d.parent_id matches Some(p) && expanded.contains(p) && below[b].depth > depth + 1));
                assert(cats.contains(d) && d.id == all[k].id && (d.parent_id matches Some(p) && expanded.contains(p) && all[k].depth > depth));
            }
        }
    }
}

/// A category row is shown only where the tree is open down to it: a
/// top-level category at depth 0, any other one deeper, under a parent that
/// is expanded.
pub proof fn law_rows_only_under_expanded(cats: Seq<CategoryInfo>, expanded: Set<i64>)
    ensures
        forall|k: int| 0 <= k < visible_categories(cats, expanded).len() ==> row_placed(
            cats, expanded, #[trigger] visible_categories(cats, expanded)[k], None, 0),
{
    lemma_rows_from_placed(cats, expanded, None, 0, cats.len());
}

} // verus!
