//! The todo panel's state machine: what each message does to the panel state
//! and which requests it hands to the caller (daemon calls, refreshes,
//! editor resets). The caller performs the requests and feeds the answers
//! back as messages. `A` is the type of a popup anchor (a screen point),
//! which the panel only stores and moves.
use vstd::prelude::*;
use crate::agent::AgentKind;
use crate::calendar::{month_day_of, parse_month_day, ymd_from_unix_secs, ymd_of_secs};
use crate::text::{chars_of, is_ws, str_eq, trim, trim_str};
use crate::todo_model::{
    active, is_active_todo, CategoryFilter, CategoryInfo, StatusFilter, TodoDrag, TodoInfo, TodoState, TodoView,
};

verus! {

broadcast use vstd::std_specs::hash::group_hash_axioms;

/// How long a newly added task stays highlighted, in milliseconds.
pub const ADD_SELECT_HIGHLIGHT_MS: u64 = 2000;

/// The id an optimistically added task carries until the daemon's list
/// replaces it (real ids start at 1).
pub const OPTIMISTIC_TODO_ID: i64 = 0;

/// One turn of a task's conversation, as the detail popup lists it.
#[derive(Debug, PartialEq)]
pub struct TurnRecord {
    pub turn_index: u64,
    pub role: String,
    pub content: String,
    pub thinking: bool,
    pub is_error: bool,
    pub tokens_in: u64,
    pub tokens_out: u64,
    pub tokens_cache_read: u64,
    pub tokens_cache_write: u64,
}

/// The stored status a task can be set to.
#[derive(Debug, Clone, Copy, PartialEq, Eq, Structural)]
pub enum TodoStoredStatus {
    Todo,
    Done,
    Suspended,
}

/// The direction a category swaps places with a sibling.
#[derive(Debug, Clone, Copy, PartialEq, Eq, Structural)]
pub enum CategoryMoveDirection {
    Up,
    Down,
}

/// The clock readings a message is handled at: wall-clock milliseconds since
/// the UNIX epoch and milliseconds of a monotonic clock.
#[derive(Debug, Clone, Copy, PartialEq, Eq, Structural)]
pub struct Now {
    pub wall_ms: u64,
    pub mono_ms: u64,
}

/// The highlight of a newly added task: its index and when it ends
/// (monotonic milliseconds).
#[derive(Debug, Clone, Copy, PartialEq, Eq, Structural)]
pub struct Flash {
    pub idx: usize,
    pub until_ms: u64,
}

/// The todo panel state of one workspace.
pub struct WorkspaceState<A> {
    items: Vec<TodoInfo>,
    add_draft: String,
    add_focused: bool,
    selected_row: Option<usize>,
    flash: Option<Flash>,
    scroll_to_top: bool,
    search: String,
    search_draft: String,
    search_focused: bool,
    dispatch_open: Option<usize>,
    dispatch_anchor: Option<A>,
    status_open: Option<usize>,
    status_anchor: Option<A>,
    calendar_open: Option<usize>,
    calendar_view: (i32, u32),
    calendar_anchor: Option<A>,
    editing_content: Option<(usize, String)>,
    content_edit_focused: bool,
    content_edit_focus_pending: bool,
    drag: Option<TodoDrag>,
    categories: Vec<CategoryInfo>,
    category_expanded: std::collections::HashSet<i64>,
    category_selected: CategoryFilter,
    status_filter: StatusFilter,
    status_filter_open: bool,
    status_filter_anchor: Option<A>,
    category_renaming: Option<(i64, String)>,
    category_rename_focused: bool,
    category_rename_focus_pending: bool,
    view: TodoView,
    detail_open: Option<usize>,
    detail_turns: Vec<TurnRecord>,
    detail_reply_draft: String,
    detail_reply_focused: bool,
    detail_processing: bool,
    clear_confirm: bool,
}

/// The panel state by value.
pub struct PanelView<A> {
    pub items: Seq<TodoInfo>,
    pub add_draft: Seq<char>,
    pub add_focused: bool,
    pub selected_row: Option<usize>,
    pub flash: Option<Flash>,
    pub scroll_to_top: bool,
    pub search: Seq<char>,
    pub search_draft: Seq<char>,
    pub search_focused: bool,
    pub dispatch_open: Option<usize>,
    pub dispatch_anchor: Option<A>,
    pub status_open: Option<usize>,
    pub status_anchor: Option<A>,
    pub calendar_open: Option<usize>,
    pub calendar_view: (i32, u32),
    pub calendar_anchor: Option<A>,
    pub editing_content: Option<(usize, Seq<char>)>,
    pub content_edit_focused: bool,
    pub content_edit_focus_pending: bool,
    pub drag: Option<TodoDrag>,
    pub categories: Seq<CategoryInfo>,
    pub category_expanded: Set<i64>,
    pub category_selected: CategoryFilter,
    pub status_filter: StatusFilter,
    pub status_filter_open: bool,
    pub status_filter_anchor: Option<A>,
    pub category_renaming: Option<(i64, Seq<char>)>,
    pub category_rename_focused: bool,
    pub category_rename_focus_pending: bool,
    pub view: TodoView,
    pub detail_open: Option<usize>,
    pub detail_turns: Seq<TurnRecord>,
    pub detail_reply_draft: Seq<char>,
    pub detail_reply_focused: bool,
    pub detail_processing: bool,
    pub clear_confirm: bool,
}

impl<A> View for WorkspaceState<A> {
    type V = PanelView<A>;

    closed spec fn view(&self) -> PanelView<A> {
        PanelView {
            items: self.items@,
            add_draft: self.add_draft@,
            add_focused: self.add_focused,
            selected_row: self.selected_row,
            flash: self.flash,
            scroll_to_top: self.scroll_to_top,
            search: self.search@,
            search_draft: self.search_draft@,
            search_focused: self.search_focused,
            dispatch_open: self.dispatch_open,
            dispatch_anchor: self.dispatch_anchor,
            status_open: self.status_open,
            status_anchor: self.status_anchor,
            calendar_open: self.calendar_open,
            calendar_view: self.calendar_view,
            calendar_anchor: self.calendar_anchor,
            editing_content: match self.editing_content {
                Some((i, d)) => Some((i, d@)),
                None => None,
            },
            content_edit_focused: self.content_edit_focused,
            content_edit_focus_pending: self.content_edit_focus_pending,
            drag: self.drag,
            categories: self.categories@,
            category_expanded: self.category_expanded@,
            category_selected: self.category_selected,
            status_filter: self.status_filter,
            status_filter_open: self.status_filter_open,
            status_filter_anchor: self.status_filter_anchor,
            category_renaming: match self.category_renaming {
                Some((i, d)) => Some((i, d@)),
                None => None,
            },
            category_rename_focused: self.category_rename_focused,
            category_rename_focus_pending: self.category_rename_focus_pending,
            view: self.view,
            detail_open: self.detail_open,
            detail_turns: self.detail_turns@,
            detail_reply_draft: self.detail_reply_draft@,
            detail_reply_focused: self.detail_reply_focused,
            detail_processing: self.detail_processing,
            clear_confirm: self.clear_confirm,
        }
    }
}

/// The state a fresh panel starts in.
pub open spec fn initial_panel<A>(p: PanelView<A>) -> bool {
    &&& p.items.len() == 0
    &&& p.add_draft.len() == 0
    &&& !p.add_focused
    &&& p.selected_row is None
    &&& p.flash is None
    &&& !p.scroll_to_top
    &&& p.search.len() == 0
    &&& p.search_draft.len() == 0
    &&& !p.search_focused
    &&& p.dispatch_open is None
    &&& p.dispatch_anchor is None
    &&& p.status_open is None
    &&& p.status_anchor is None
    &&& p.calendar_open is None
    &&& p.calendar_view == (0i32, 0u32)
    &&& p.calendar_anchor is None
    &&& p.editing_content is None
    &&& !p.content_edit_focused
    &&& !p.content_edit_focus_pending
    &&& p.drag is None
    &&& p.categories.len() == 0
    &&& p.category_expanded == Set::<i64>::empty()
    &&& p.category_selected == CategoryFilter::All
    &&& p.status_filter == StatusFilter::All
    &&& !p.status_filter_open
    &&& p.status_filter_anchor is None
    &&& p.category_renaming is None
    &&& !p.category_rename_focused
    &&& !p.category_rename_focus_pending
    &&& p.view == TodoView::List
    &&& p.detail_open is None
    &&& p.detail_turns.len() == 0
    &&& p.detail_reply_draft.len() == 0
    &&& !p.detail_reply_focused
    &&& !p.detail_processing
    &&& !p.clear_confirm
}

impl<A> WorkspaceState<A> {
    /// A fresh panel: nothing loaded, nothing open, every filter at "all",
    /// list view.
    pub fn new() -> (r: Self)
        ensures
            initial_panel(r@),
    {
        WorkspaceState {
            items: Vec::new(),
            add_draft: String::new(),
            add_focused: false,
            selected_row: None,
            flash: None,
            scroll_to_top: false,
            search: String::new(),
            search_draft: String::new(),
            search_focused: false,
            dispatch_open: None,
            dispatch_anchor: None,
            status_open: None,
            status_anchor: None,
            calendar_open: None,
            calendar_view: (0, 0),
            calendar_anchor: None,
            editing_content: None,
            content_edit_focused: false,
            content_edit_focus_pending: false,
            drag: None,
            categories: Vec::new(),
            category_expanded: std::collections::HashSet::new(),
            category_selected: CategoryFilter::All,
            status_filter: StatusFilter::All,
            status_filter_open: false,
            status_filter_anchor: None,
            category_renaming: None,
            category_rename_focused: false,
            category_rename_focus_pending: false,
            view: TodoView::List,
            detail_open: None,
            detail_turns: Vec::new(),
            detail_reply_draft: String::new(),
            detail_reply_focused: false,
            detail_processing: false,
            clear_confirm: false,
        }
    }
}

/// The messages of the todo panel.
#[derive(Debug)]
pub enum Message {
    Toggle(usize),
    AddEdited(String),
    AddSubmit,
    AddResizeStart,
    RowSelect(Option<usize>),
    SearchInput(String),
    SearchSubmit,
    ToggleListCollapse,
    DragMove(usize),
    DragEnd,
    DispatchOpen(usize),
    DispatchClose,
    AssignAgent(usize, AgentKind),
    DetailOpen(usize),
    DetailClose,
    DetailReplyInput(String),
    DetailReplySubmit,
    StatusOpen(usize),
    StatusClose,
    StatusPick(usize, TodoState),
    StatusFilterOpen,
    StatusFilterClose,
    StatusFilterPick(StatusFilter),
    CalendarOpen(usize),
    CalendarClose,
    CalendarPrevMonth,
    CalendarNextMonth,
    CalendarPick(usize, String),
    ContentEditStart(usize),
    ContentEdited(String, bool),
    ClearListRequest,
    ClearListCancel,
    ClearListConfirm,
    Loaded(Vec<TodoInfo>),
    Mutated(Result<(), String>),
    CategoriesLoaded(Vec<CategoryInfo>),
    CategoryMutated(Result<(), String>),
    CategoryToggleExpand(i64),
    CategorySelect(CategoryFilter),
    SelectView(TodoView),
    CategoryContextMenuOpen(Option<i64>),
    CategoryNewChild(i64),
    CategoryNewSibling(Option<i64>),
    CategoryDelete(i64),
    CategoryRenameStart(i64),
    CategoryRenameEdit(String),
    CategoryRenameSubmit,
    CategoryMoveSibling(i64, CategoryMoveDirection),
    CategoryReparentPickerOpen(i64),
    CategoryPickerOpenForTodo(i64),
}

/// What handling a message asks of the caller.
#[derive(Debug, PartialEq)]
pub enum Effect {
    /// Re-read the task list.
    RefreshTodos,
    /// Re-read the category tree and the task list.
    RefreshCategoriesAndTodos,
    /// Set a task's done flag.
    ToggleTodo { id: i64, done: bool },
    /// Add a task with this text.
    AddTodo { text: String },
    /// Empty the new-task editor.
    ClearAddEditor,
    /// Move a task after another one (`None`: to the front).
    ReorderTodo { id: i64, after: Option<i64> },
    /// Set a task's stored status.
    SetStatus { id: i64, status: TodoStoredStatus },
    /// Set a task's plan date ("MM-DD").
    SetPlanDate { id: i64, day: String },
    /// Load the inline content editor with this text.
    OpenContentEditor { text: String },
    /// Replace a task's text.
    EditText { id: i64, text: String },
    /// Add a category under `parent` (`None`: top level), then start renaming it.
    AddCategory { parent: Option<i64> },
    /// Delete a category.
    DeleteCategory { id: i64 },
    /// Rename a category.
    RenameCategory { id: i64, name: String },
    /// Swap a category with a sibling.
    MoveCategorySibling { id: i64, direction: CategoryMoveDirection },
}

/// An effect by value.
pub enum EffectView {
    RefreshTodos,
    RefreshCategoriesAndTodos,
    ToggleTodo { id: i64, done: bool },
    AddTodo { text: Seq<char> },
    ClearAddEditor,
    ReorderTodo { id: i64, after: Option<i64> },
    SetStatus { id: i64, status: TodoStoredStatus },
    SetPlanDate { id: i64, day: Seq<char> },
    OpenContentEditor { text: Seq<char> },
    EditText { id: i64, text: Seq<char> },
    AddCategory { parent: Option<i64> },
    DeleteCategory { id: i64 },
    RenameCategory { id: i64, name: Seq<char> },
    MoveCategorySibling { id: i64, direction: CategoryMoveDirection },
}

impl View for Effect {
    type V = EffectView;

    open spec fn view(&self) -> EffectView {
        match self {
            Effect::RefreshTodos => EffectView::RefreshTodos,
            Effect::RefreshCategoriesAndTodos => EffectView::RefreshCategoriesAndTodos,
            Effect::ToggleTodo { id, done } => EffectView::ToggleTodo { id: *id, done: *done },
            Effect::AddTodo { text } => EffectView::AddTodo { text: text@ },
            Effect::ClearAddEditor => EffectView::ClearAddEditor,
            Effect::ReorderTodo { id, after } => EffectView::ReorderTodo { id: *id, after: *after },
            Effect::SetStatus { id, status } => EffectView::SetStatus { id: *id, status: *status },
            Effect::SetPlanDate { id, day } => EffectView::SetPlanDate { id: *id, day: day@ },
            Effect::OpenContentEditor { text } => EffectView::OpenContentEditor { text: text@ },
            Effect::EditText { id, text } => EffectView::EditText { id: *id, text: text@ },
            Effect::AddCategory { parent } => EffectView::AddCategory { parent: *parent },
            Effect::DeleteCategory { id } => EffectView::DeleteCategory { id: *id },
            Effect::RenameCategory { id, name } => EffectView::RenameCategory { id: *id, name: name@ },
            Effect::MoveCategorySibling { id, direction } => EffectView::MoveCategorySibling { id: *id, direction: *direction },
        }
    }
}

/// Effects by value.
pub open spec fn effects_view(s: Seq<Effect>) -> Seq<EffectView> {
    s.map_values(|e: Effect| e@)
}

/// The index of the last task of the active block.
pub open spec fn last_active(items: Seq<TodoInfo>) -> Option<int>
    decreases items.len(),
{
    if items.len() == 0 {
        None
    } else if active(items.last()) {
        Some(items.len() - 1)
    } else {
        last_active(items.drop_last())
    }
}

/// Where a drag over task `over` would drop: on that task when it is active;
/// at the end of the active block (`usize::MAX`) over a finished task;
/// otherwise after the last active task (`usize::MAX` when there is none).
pub open spec fn drop_target(items: Seq<TodoInfo>, over: usize) -> usize {
    if over < items.len() && active(items[over as int]) {
        over
    } else if over < items.len() && items[over as int].done {
        usize::MAX
    } else {
        match last_active(items) {
            Some(i) => i as usize,
            None => usize::MAX,
        }
    }
}

/// The last active task is an active task of the list.
pub(crate) proof fn lemma_last_active(items: Seq<TodoInfo>)
    ensures
        last_active(items) matches Some(i) ==> 0 <= i < items.len() && active(items[i]),
    decreases items.len(),
{
    if items.len() > 0 && !active(items.last()) {
        lemma_last_active(items.drop_last());
    }
}

/// The task a drop point lands after: the task at `target`, or for a point
/// past the listed tasks (the end of the active block) the last active task;
/// none when there is no active task.
pub open spec fn drop_anchor(items: Seq<TodoInfo>, target: usize) -> Option<int> {
    if target < items.len() { Some(target as int) } else { last_active(items) }
}

/// The index of the first category with id `id`.
pub open spec fn category_index(cats: Seq<CategoryInfo>, id: i64) -> Option<int>
    decreases cats.len(),
{
    if cats.len() == 0 {
        None
    } else if cats[0].id == id {
        Some(0)
    } else {
        match category_index(cats.drop_first(), id) {
            Some(i) => Some(i + 1),
            None => None,
        }
    }
}

/// The stored status a state picked in the status popup is written as
/// (`None` for "in progress", which is reached by dispatching instead).
pub open spec fn stored_status(s: TodoState) -> Option<TodoStoredStatus> {
    match s {
        TodoState::Pending => Some(TodoStoredStatus::Todo),
        TodoState::Done => Some(TodoStoredStatus::Done),
        TodoState::Suspended => Some(TodoStoredStatus::Suspended),
        TodoState::InProgress => None,
    }
}

/// `t` is the task the panel shows right away for a newly added `text`.
pub open spec fn optimistic_task(t: TodoInfo, project_id: i64, text: Seq<char>) -> bool {
    &&& t.id == OPTIMISTIC_TODO_ID
    &&& t.project_id == project_id
    &&& t.text@ == text
    &&& !t.done
    &&& !t.paused
    &&& t.rank == 0
    &&& t.created_ms == 0
    &&& t.completed_at_ms is None
    &&& t.plan_date is None
    &&& t.dispatch_session_id is None
    &&& t.dispatch_at_ms is None
    &&& t.category_id is None
    &&& t.assigned_agent is None
}

/// `t` is the human turn shown right away for a reply `content` after the
/// turns `turns`.
pub open spec fn optimistic_turn(t: TurnRecord, turns: Seq<TurnRecord>, content: Seq<char>) -> bool {
    &&& t.turn_index == if turns.len() == 0 { 0 } else { turns.last().turn_index + 1 }
    &&& t.role@ == "human"@
    &&& t.content@ == content
    &&& !t.thinking
    &&& !t.is_error
    &&& t.tokens_in == 0 && t.tokens_out == 0 && t.tokens_cache_read == 0 && t.tokens_cache_write == 0
}

/// The month before `(y, m)`.
pub open spec fn prev_month(v: (i32, u32)) -> (i32, u32) {
    if v.1 == 1 { ((v.0 - 1) as i32, 12u32) } else { (v.0, (v.1 - 1) as u32) }
}

/// The month after `(y, m)`.
pub open spec fn next_month(v: (i32, u32)) -> (i32, u32) {
    if v.1 == 12 { ((v.0 + 1) as i32, 1u32) } else { (v.0, (v.1 + 1) as u32) }
}

/// What committing the category rename draft asks for: nothing when no
/// rename is open, the trimmed draft is empty, the category is gone or the
/// name is unchanged; otherwise the rename.
pub open spec fn rename_request<A>(p: PanelView<A>) -> Option<(i64, Seq<char>)> {
    match p.category_renaming {
        None => None,
        Some((id, d)) => {
            let n = trim(d);
            if n.len() == 0 {
                None
            } else {
                match category_index(p.categories, id) {
                    None => None,
                    Some(k) => if p.categories[k].name@ == n { None } else { Some((id, n)) },
                }
            }
        },
    }
}

/// The message leaves a state the panel can handle without overflow.
pub open spec fn can_handle<A>(p: PanelView<A>, msg: Message) -> bool {
    match msg {
        Message::CalendarPrevMonth => p.calendar_view.1 >= 1 && (p.calendar_view.1 == 1 ==> p.calendar_view.0 > i32::MIN),
        Message::CalendarNextMonth => p.calendar_view.1 < u32::MAX && (p.calendar_view.1 == 12 ==> p.calendar_view.0 < i32::MAX),
        Message::DetailReplySubmit => p.detail_turns.len() > 0 ==> p.detail_turns.last().turn_index < u64::MAX,
        _ => true,
    }
}

/// `p` with the status filter popup closed.
pub open spec fn filter_closed<A>(p: PanelView<A>) -> PanelView<A> {
    PanelView { status_filter_open: false, status_filter_anchor: None, ..p }
}

/// What handling `msg` at `now` for project `project_id` does: the panel
/// goes from `p` to `p2` and the caller is asked for `e`.
pub open spec fn transition<A>(p: PanelView<A>, msg: Message, project_id: i64, now: Now, p2: PanelView<A>, e: Seq<EffectView>) -> bool {
    let n = p.items.len();
    match msg {
        Message::Toggle(idx) => if idx < n {
            let it = p.items[idx as int];
            &&& p2 == PanelView { items: p2.items, ..p }
            &&& p2.items.len() == n
            &&& (forall|k: int| 0 <= k < n && k != idx ==> p2.items[k] == p.items[k])
            &&& p2.items[idx as int] == TodoInfo {
                done: !it.done,
                completed_at_ms: if !it.done { Some(now.wall_ms) } else { None },
                ..it
            }
            &&& e == seq![EffectView::ToggleTodo { id: it.id, done: !it.done }]
        } else {
            p2 == p && e.len() == 0
        },
        Message::AddEdited(t) => p2 == PanelView { add_draft: t@, ..p } && e.len() == 0,
        Message::AddSubmit => {
            let text = trim(p.add_draft);
            if text.len() == 0 {
                p2 == p && e.len() == 0
            } else {
                &&& p2 == PanelView {
                    items: p2.items,
                    add_draft: Seq::empty(),
                    selected_row: Some(0),
                    flash: Some(Flash { idx: 0, until_ms: if now.mono_ms + ADD_SELECT_HIGHLIGHT_MS <= u64::MAX { (now.mono_ms + ADD_SELECT_HIGHLIGHT_MS) as u64 } else { u64::MAX } }),
                    scroll_to_top: true,
                    ..p
                }
                &&& p2.items.len() == n + 1
                &&& optimistic_task(p2.items[0], project_id, text)
                &&& p2.items.skip(1) == p.items
                &&& e == seq![EffectView::ClearAddEditor, EffectView::AddTodo { text }]
            }
        },
        Message::RowSelect(sel) => e.len() == 0 && p2 == PanelView {
            selected_row: sel,
            flash: None,
            drag: match sel {
                Some(i) => if i < n && active(p.items[i as int]) { Some(TodoDrag { source_idx: i, target_idx: i }) } else { p.drag },
                None => p.drag,
            },
            ..p
        },
        Message::SearchInput(t) => p2 == PanelView { search_draft: t@, ..p } && e.len() == 0,
        Message::SearchSubmit => p2 == PanelView { search: p.search_draft, ..p } && e.len() == 0,
        Message::DragMove(over) => e.len() == 0 && match p.drag {
            None => p2 == p,
            Some(d) => {
                let target = drop_target(p.items, over);
                p2 == if target != d.target_idx {
                    PanelView { drag: Some(TodoDrag { source_idx: d.source_idx, target_idx: target }), ..p }
                } else {
                    p
                }
            },
        },
        Message::DragEnd => match p.drag {
            None => p2 == p && e.len() == 0,
            Some(d) => {
                &&& p2 == PanelView { drag: None, ..p }
                &&& e == if d.source_idx < n && drop_anchor(p.items, d.target_idx) != Some(d.source_idx as int) {
                    seq![EffectView::ReorderTodo {
                        id: p.items[d.source_idx as int].id,
                        after: match drop_anchor(p.items, d.target_idx) {
                            Some(a) => Some(p.items[a].id),
                            None => None,
                        },
                    }]
                } else {
                    Seq::empty()
                }
            },
        },
        Message::DispatchOpen(idx) => e.len() == 0 && p2 == PanelView {
            calendar_open: None,
            status_open: None,
            dispatch_open: Some(idx),
            ..filter_closed(p)
        },
        Message::DispatchClose => e.len() == 0 && p2 == PanelView { dispatch_open: None, dispatch_anchor: None, ..p },
        Message::AssignAgent(_, _) => e.len() == 0 && p2 == PanelView { dispatch_open: None, dispatch_anchor: None, ..p },
        Message::DetailClose => e.len() == 0 && p2 == PanelView {
            detail_open: None,
            detail_turns: Seq::empty(),
            detail_reply_draft: Seq::empty(),
            detail_processing: false,
            ..p
        },
        Message::DetailReplyInput(t) => e.len() == 0 && p2 == PanelView { detail_reply_draft: t@, ..p },
        Message::DetailReplySubmit => e.len() == 0 && if trim(p.detail_reply_draft).len() == 0 {
            p2 == PanelView { detail_reply_draft: Seq::empty(), ..p }
        } else {
            &&& p2 == PanelView { detail_reply_draft: Seq::empty(), detail_turns: p2.detail_turns, detail_processing: true, ..p }
            &&& p2.detail_turns.len() == p.detail_turns.len() + 1
            &&& p2.detail_turns.drop_last() == p.detail_turns
            &&& optimistic_turn(p2.detail_turns.last(), p.detail_turns, p.detail_reply_draft)
        },
        Message::StatusOpen(idx) => e.len() == 0 && p2 == PanelView {
            dispatch_open: None,
            calendar_open: None,
            status_open: Some(idx),
            ..filter_closed(p)
        },
        Message::StatusClose => e.len() == 0 && p2 == PanelView { status_open: None, status_anchor: None, ..p },
        Message::StatusPick(idx, target) => {
            let c = PanelView { status_open: None, status_anchor: None, ..p };
            if idx >= n {
                p2 == c && e.len() == 0
            } else {
                let it = p.items[idx as int];
                if target == TodoState::InProgress {
                    if it.paused {
                        p2 == c && e == seq![EffectView::SetStatus { id: it.id, status: TodoStoredStatus::Todo }]
                    } else {
                        p2 == PanelView { dispatch_open: Some(idx), ..c } && e.len() == 0
                    }
                } else {
                    p2 == c && e == seq![EffectView::SetStatus { id: it.id, status: stored_status(target).unwrap() }]
                }
            }
        },
        Message::StatusFilterOpen => e.len() == 0 && p2 == PanelView {
            status_open: None,
            dispatch_open: None,
            calendar_open: None,
            status_filter_open: true,
            ..p
        },
        Message::StatusFilterClose => e.len() == 0 && p2 == filter_closed(p),
        Message::StatusFilterPick(f) => e.len() == 0 && p2 == PanelView { status_filter: f, ..filter_closed(p) },
        Message::CalendarOpen(idx) => {
            let today = ymd_of_secs(now.wall_ms as int / 1000);
            let month = if idx < n && (p.items[idx as int].plan_date matches Some(pd) && month_day_of(pd@) is Some) {
                month_day_of(p.items[idx as int].plan_date.unwrap()@).unwrap().0
            } else {
                today.1
            };
            e.len() == 0 && p2 == PanelView {
                status_open: None,
                status_anchor: None,
                dispatch_open: None,
                calendar_open: Some(idx),
                calendar_view: (today.0, month),
                ..filter_closed(p)
            }
        },
        Message::CalendarClose => e.len() == 0 && p2 == PanelView { calendar_open: None, calendar_anchor: None, ..p },
        Message::CalendarPrevMonth => e.len() == 0 && p2 == PanelView { calendar_view: prev_month(p.calendar_view), ..p },
        Message::CalendarNextMonth => e.len() == 0 && p2 == PanelView { calendar_view: next_month(p.calendar_view), ..p },
        Message::CalendarPick(idx, day) => {
            &&& p2 == PanelView { calendar_open: None, calendar_anchor: None, ..p }
            &&& e == if idx < n { seq![EffectView::SetPlanDate { id: p.items[idx as int].id, day: day@ }] } else { Seq::empty() }
        },
        Message::ContentEditStart(idx) => if p.editing_content matches Some((cur, _)) && cur == idx {
            p2 == p && e.len() == 0
        } else {
            &&& p2 == PanelView {
                editing_content: if idx < n { Some((idx, p.items[idx as int].text@)) } else { p.editing_content },
                content_edit_focus_pending: true,
                ..p
            }
            &&& e == if idx < n { seq![EffectView::OpenContentEditor { text: p.items[idx as int].text@ }] } else { Seq::empty() }
        },
        Message::ContentEdited(t, enter) => match p.editing_content {
            None => p2 == p && e.len() == 0,
            Some((i, _)) => if !enter {
                p2 == PanelView { editing_content: Some((i, t@)), ..p } && e.len() == 0
            } else {
                let new_text = trim(t@);
                &&& p2 == PanelView { editing_content: None, ..p }
                &&& e == if i < n && new_text.len() > 0 && p.items[i as int].text@ != new_text {
                    seq![EffectView::EditText { id: p.items[i as int].id, text: new_text }]
                } else {
                    Seq::empty()
                }
            },
        },
        Message::ClearListRequest => e.len() == 0 && p2 == PanelView { clear_confirm: true, ..p },
        Message::ClearListCancel => e.len() == 0 && p2 == PanelView { clear_confirm: false, ..p },
        Message::ClearListConfirm => e.len() == 0 && p2 == PanelView { clear_confirm: false, ..p },
        Message::Loaded(todos) => e.len() == 0 && p2 == PanelView { items: todos@, ..p },
        Message::Mutated(_) => p2 == p && e == seq![EffectView::RefreshTodos],
        Message::CategoriesLoaded(cats) => e.len() == 0 && p2 == PanelView { categories: cats@, ..p },
        Message::CategoryMutated(_) => p2 == p && e == seq![EffectView::RefreshCategoriesAndTodos],
        Message::CategoryToggleExpand(id) => e.len() == 0 && p2 == PanelView {
            category_expanded: if p.category_expanded.contains(id) { p.category_expanded.remove(id) } else { p.category_expanded.insert(id) },
            ..p
        },
        Message::CategorySelect(f) => e.len() == 0 && p2 == PanelView {
            category_selected: f,
            search: Seq::empty(),
            search_draft: Seq::empty(),
            ..p
        },
        Message::SelectView(v) => e.len() == 0 && p2 == PanelView { view: v, ..p },
        Message::CategoryNewChild(parent) => p2 == p && e == seq![EffectView::AddCategory { parent: Some(parent) }],
        Message::CategoryNewSibling(parent) => p2 == p && e == seq![EffectView::AddCategory { parent }],
        Message::CategoryDelete(id) => p2 == p && e == seq![EffectView::DeleteCategory { id }],
        Message::CategoryRenameStart(id) => e.len() == 0 && match category_index(p.categories, id) {
            None => p2 == p,
            Some(k) => p2 == PanelView {
                category_renaming: Some((id, p.categories[k].name@)),
                category_rename_focus_pending: true,
                ..p
            },
        },
        Message::CategoryRenameEdit(t) => e.len() == 0 && p2 == PanelView {
            category_renaming: match p.category_renaming {
                Some((id, _)) => Some((id, t@)),
                None => None,
            },
            ..p
        },
        Message::CategoryRenameSubmit => {
            &&& p2 == PanelView { category_renaming: None, ..p }
            &&& e == match rename_request(p) {
                Some((id, name)) => seq![EffectView::RenameCategory { id, name }],
                None => Seq::empty(),
            }
        },
        Message::CategoryMoveSibling(id, direction) => p2 == p && e == seq![EffectView::MoveCategorySibling { id, direction }],
        Message::ToggleListCollapse => p2 == p && e.len() == 0,
        Message::AddResizeStart => p2 == p && e.len() == 0,
        Message::DetailOpen(_) => p2 == p && e.len() == 0,
        Message::CategoryContextMenuOpen(_) => p2 == p && e.len() == 0,
        Message::CategoryReparentPickerOpen(_) => p2 == p && e.len() == 0,
        Message::CategoryPickerOpenForTodo(_) => p2 == p && e.len() == 0,
    }
}

/// The index of the last active task.
fn last_active_index(items: &Vec<TodoInfo>) -> (r: Option<usize>)
    ensures
        match r {
            Some(i) => last_active(items@) == Some(i as int),
            None => last_active(items@) is None,
        },
{
    let mut i: usize = items.len();
    assert(items@.take(i as int) =~= items@);
    while i > 0
        invariant
            i <= items@.len(),
            last_active(items@) == last_active(items@.take(i as int)),
        decreases i,
    {
        let ghost pre = items@.take(i as int);
        if is_active_todo(&items[i - 1]) {
            assert(pre.last() == items@[i - 1]);
            return Some(i - 1);
        }
        assert(pre.drop_last() =~= items@.take(i - 1));
        i = i - 1;
    }
    None
}

/// The index of the first category with id `id`.
fn find_category(cats: &Vec<CategoryInfo>, id: i64) -> (r: Option<usize>)
    ensures
        match r {
            Some(i) => i < cats@.len() && category_index(cats@, id) == Some(i as int),
            None => category_index(cats@, id) is None,
        },
{
    let mut i: usize = 0;
    assert(cats@.skip(0) =~= cats@);
    while i < cats.len()
        invariant
            i <= cats@.len(),
            category_index(cats@, id) == match category_index(cats@.skip(i as int), id) {
                Some(k) => Some(k + i),
                None => None,
            },
        decreases cats@.len() - i,
    {
        assert(cats@.skip(i as int).drop_first() =~= cats@.skip(i + 1));
        if cats[i].id == id {
            return Some(i);
        }
        i = i + 1;
    }
    None
}

impl<A> WorkspaceState<A> {
    /// Closes the status filter popup.
    pub fn close_status_filter_popup(&mut self)
        ensures
            final(self)@ == filter_closed(old(self)@),
    {
        self.status_filter_open = false;
        self.status_filter_anchor = None;
    }

    /// Closes the status popup of a card.
    pub fn close_status_popup(&mut self)
        ensures
            final(self)@ == (PanelView { status_open: None, status_anchor: None, ..old(self)@ }),
    {
        self.status_open = None;
        self.status_anchor = None;
    }

    /// Closes the date picker.
    pub fn close_calendar_popup(&mut self)
        ensures
            final(self)@ == (PanelView { calendar_open: None, calendar_anchor: None, ..old(self)@ }),
    {
        self.calendar_open = None;
        self.calendar_anchor = None;
    }

    /// Closes the dispatch popup.
    pub fn close_dispatch_popup(&mut self)
        ensures
            final(self)@ == (PanelView { dispatch_open: None, dispatch_anchor: None, ..old(self)@ }),
    {
        self.dispatch_open = None;
        self.dispatch_anchor = None;
    }

    /// Closes the detail popup, dropping its turns, its reply draft and its
    /// processing flag.
    pub fn close_detail(&mut self)
        ensures
            final(self)@ == (PanelView {
                detail_open: None,
                detail_turns: Seq::empty(),
                detail_reply_draft: Seq::empty(),
                detail_processing: false,
                ..old(self)@
            }),
    {
        self.detail_open = None;
        self.detail_turns = Vec::new();
        self.detail_reply_draft = String::new();
        self.detail_processing = false;
    }

    /// Clears both the applied search keyword and its draft.
    pub fn clear_search(&mut self)
        ensures
            final(self)@ == (PanelView { search: Seq::empty(), search_draft: Seq::empty(), ..old(self)@ }),
    {
        self.search = String::new();
        self.search_draft = String::new();
    }

    /// Expands or collapses a category node.
    pub fn toggle_category_expanded(&mut self, id: i64)
        ensures
            final(self)@ == (PanelView {
                category_expanded: if old(self)@.category_expanded.contains(id) {
                    old(self)@.category_expanded.remove(id)
                } else {
                    old(self)@.category_expanded.insert(id)
                },
                ..old(self)@
            }),
    {
        let ghost before = self.category_expanded@;
        let was = self.category_expanded.remove(&id);
        proof {
            vstd::std_specs::hash::axiom_set_deref_key_removed(before, self.category_expanded@, &id);
            vstd::std_specs::hash::axiom_set_contains_deref_key(before, &id);
        }
        if !was {
            self.category_expanded.insert(id);
        }
        assert(self.category_expanded@ =~= if before.contains(id) { before.remove(id) } else { before.insert(id) });
    }

    /// Ends the category rename; answers the rename to perform, if any.
    pub fn commit_category_rename(&mut self) -> (r: Option<(i64, String)>)
        ensures
            final(self)@ == (PanelView { category_renaming: None, ..old(self)@ }),
            match r {
                Some((id, name)) => rename_request(old(self)@) == Some((id, name@)),
                None => rename_request(old(self)@) is None,
            },
    {
        let taken = self.category_renaming.take();
        let (id, draft) = match taken {
            Some(p) => p,
            None => {
                return None;
            },
        };
        let new_name = trim_str(draft.as_str());
        let cs = chars_of(new_name.as_str());
        if cs.len() == 0 {
            return None;
        }
        match find_category(&self.categories, id) {
            None => None,
            Some(k) => {
                if str_eq(self.categories[k].name.as_str(), new_name.as_str()) {
                    None
                } else {
                    Some((id, new_name))
                }
            },
        }
    }

    /// Appends the reply just sent as a human turn, numbered after the last
    /// turn, and marks the popup as processing.
    pub fn push_optimistic_human_turn(&mut self, content: String)
        requires
            old(self)@.detail_turns.len() > 0 ==> old(self)@.detail_turns.last().turn_index < u64::MAX,
        ensures
            final(self)@ == (PanelView { detail_turns: final(self)@.detail_turns, detail_processing: true, ..old(self)@ }),
            final(self)@.detail_turns.len() == old(self)@.detail_turns.len() + 1,
            final(self)@.detail_turns.drop_last() == old(self)@.detail_turns,
            optimistic_turn(final(self)@.detail_turns.last(), old(self)@.detail_turns, content@),
    {
        let n = self.detail_turns.len();
        let next_index: u64 = if n == 0 { 0 } else { self.detail_turns[n - 1].turn_index + 1 };
        self.detail_turns.push(TurnRecord {
            turn_index: next_index,
            role: "human".to_owned(),
            content,
            thinking: false,
            is_error: false,
            tokens_in: 0,
            tokens_out: 0,
            tokens_cache_read: 0,
            tokens_cache_write: 0,
        });
        self.detail_processing = true;
        assert(self@.detail_turns.drop_last() =~= old(self)@.detail_turns);
    }

    #[verifier::spinoff_prover]
    fn on_toggle(&mut self, idx: usize, project_id: i64, now: Now) -> (r: Vec<Effect>)
        requires
            can_handle(old(self)@, Message::Toggle(idx)),
        ensures
            transition(old(self)@, Message::Toggle(idx), project_id, now, final(self)@, effects_view(r@)),
    {
        let ghost p = self@;
        let mut out: Vec<Effect> = Vec::new();
        if idx < self.items.len() {
            let mut it = self.items[idx].clone();
            let target = !it.done;
            it.done = target;
            it.completed_at_ms = if target { Some(now.wall_ms) } else { None };
            let id = it.id;
            self.items.set(idx, it);
            out.push(Effect::ToggleTodo { id, done: target });
            assert(effects_view(out@) =~= seq![EffectView::ToggleTodo { id, done: target }]);
        }
        assert(out@.len() == 0 ==> effects_view(out@) =~= Seq::<EffectView>::empty());
        out
    }

    #[verifier::spinoff_prover]
    fn on_add_edited(&mut self, t: String, project_id: i64, now: Now) -> (r: Vec<Effect>)
        requires
            can_handle(old(self)@, Message::AddEdited(t)),
        ensures
            transition(old(self)@, Message::AddEdited(t), project_id, now, final(self)@, effects_view(r@)),
    {
        let ghost p = self@;
        let mut out: Vec<Effect> = Vec::new();
        self.add_draft = t;
        assert(out@.len() == 0 ==> effects_view(out@) =~= Seq::<EffectView>::empty());
        out
    }

    #[verifier::spinoff_prover]
    fn on_add_submit(&mut self, project_id: i64, now: Now) -> (r: Vec<Effect>)
        requires
            can_handle(old(self)@, Message::AddSubmit),
        ensures
            transition(old(self)@, Message::AddSubmit, project_id, now, final(self)@, effects_view(r@)),
    {
        let ghost p = self@;
        let mut out: Vec<Effect> = Vec::new();
        let text = trim_str(self.add_draft.as_str());
        let cs = chars_of(text.as_str());
        if cs.len() > 0 {
            self.add_draft = String::new();
            let task = TodoInfo {
                id: OPTIMISTIC_TODO_ID,
                project_id,
                text: text.clone(),
                done: false,
                paused: false,
                rank: 0,
                created_ms: 0,
                completed_at_ms: None,
                plan_date: None,
                dispatch_session_id: None,
                dispatch_at_ms: None,
                category_id: None,
                assigned_agent: None,
            };
            self.items.insert(0, task);
            self.selected_row = Some(0);
            let until = now.mono_ms.saturating_add(ADD_SELECT_HIGHLIGHT_MS);
            self.flash = Some(Flash { idx: 0, until_ms: until });
            self.scroll_to_top = true;
            out.push(Effect::ClearAddEditor);
            out.push(Effect::AddTodo { text });
            assert(self@.items.skip(1) =~= p.items);
            assert(effects_view(out@) =~= seq![EffectView::ClearAddEditor, EffectView::AddTodo { text: trim(p.add_draft) }]);
        }
        assert(out@.len() == 0 ==> effects_view(out@) =~= Seq::<EffectView>::empty());
        out
    }

    #[verifier::spinoff_prover]
    fn on_row_select(&mut self, sel: Option<usize>, project_id: i64, now: Now) -> (r: Vec<Effect>)
        requires
            can_handle(old(self)@, Message::RowSelect(sel)),
        ensures
            transition(old(self)@, Message::RowSelect(sel), project_id, now, final(self)@, effects_view(r@)),
    {
        let ghost p = self@;
        let mut out: Vec<Effect> = Vec::new();
        self.selected_row = sel;
        self.flash = None;
        match sel {
            Some(i) => {
                if i < self.items.len() && is_active_todo(&self.items[i]) {
                    self.drag = Some(TodoDrag { source_idx: i, target_idx: i });
                }
            },
            None => {},
        }
        assert(out@.len() == 0 ==> effects_view(out@) =~= Seq::<EffectView>::empty());
        out
    }

    #[verifier::spinoff_prover]
    fn on_search_input(&mut self, t: String, project_id: i64, now: Now) -> (r: Vec<Effect>)
        requires
            can_handle(old(self)@, Message::SearchInput(t)),
        ensures
            transition(old(self)@, Message::SearchInput(t), project_id, now, final(self)@, effects_view(r@)),
    {
        let ghost p = self@;
        let mut out: Vec<Effect> = Vec::new();
        self.search_draft = t;
        assert(out@.len() == 0 ==> effects_view(out@) =~= Seq::<EffectView>::empty());
        out
    }

    #[verifier::spinoff_prover]
    fn on_search_submit(&mut self, project_id: i64, now: Now) -> (r: Vec<Effect>)
        requires
            can_handle(old(self)@, Message::SearchSubmit),
        ensures
            transition(old(self)@, Message::SearchSubmit, project_id, now, final(self)@, effects_view(r@)),
    {
        let ghost p = self@;
        let mut out: Vec<Effect> = Vec::new();
        self.search = self.search_draft.clone();
        assert(out@.len() == 0 ==> effects_view(out@) =~= Seq::<EffectView>::empty());
        out
    }

    #[verifier::spinoff_prover]
    #[verifier::rlimit(30)]
    fn on_drag_move(&mut self, over: usize, project_id: i64, now: Now) -> (r: Vec<Effect>)
        requires
            can_handle(old(self)@, Message::DragMove(over)),
        ensures
            transition(old(self)@, Message::DragMove(over), project_id, now, final(self)@, effects_view(r@)),
    {
        let ghost p = self@;
        let mut out: Vec<Effect> = Vec::new();
        match self.drag {
            None => {},
            Some(d) => {
                let target: usize = if over < self.items.len() && is_active_todo(&self.items[over]) {
                    over
                } else if over < self.items.len() && self.items[over].done {
                    usize::MAX
                } else {
                    match last_active_index(&self.items) {
                        Some(i) => i,
                        None => usize::MAX,
                    }
                };
                assert(target == drop_target(p.items, over));
                if target != d.target_idx {
                    self.drag = Some(TodoDrag { source_idx: d.source_idx, target_idx: target });
                }
            },
        }
        assert(out@.len() == 0 ==> effects_view(out@) =~= Seq::<EffectView>::empty());
        out
    }

    #[verifier::spinoff_prover]
    fn on_drag_end(&mut self, project_id: i64, now: Now) -> (r: Vec<Effect>)
        requires
            can_handle(old(self)@, Message::DragEnd),
        ensures
            transition(old(self)@, Message::DragEnd, project_id, now, final(self)@, effects_view(r@)),
    {
        let ghost p = self@;
        let mut out: Vec<Effect> = Vec::new();
        let taken = self.drag.take();
        match taken {
            None => {},
            Some(d) => {
                let anchor: Option<usize> = if d.target_idx < self.items.len() {
                    Some(d.target_idx)
                } else {
                    last_active_index(&self.items)
                };
                assert(match anchor {
                    Some(a) => drop_anchor(p.items, d.target_idx) == Some(a as int),
                    None => drop_anchor(p.items, d.target_idx) is None,
                });
                proof {
                    lemma_last_active(p.items);
                }
                let moves = match anchor {
                    Some(a) => a != d.source_idx,
                    None => true,
                };
                if d.source_idx < self.items.len() && moves {
                    let id = self.items[d.source_idx].id;
                    let after: Option<i64> = match anchor {
                        Some(a) => Some(self.items[a].id),
                        None => None,
                    };
                    out.push(Effect::ReorderTodo { id, after });
                    assert(effects_view(out@) =~= seq![EffectView::ReorderTodo { id, after }]);
                }
            },
        }
        assert(out@.len() == 0 ==> effects_view(out@) =~= Seq::<EffectView>::empty());
        out
    }

    #[verifier::spinoff_prover]
    fn on_dispatch_open(&mut self, idx: usize, project_id: i64, now: Now) -> (r: Vec<Effect>)
        requires
            can_handle(old(self)@, Message::DispatchOpen(idx)),
        ensures
            transition(old(self)@, Message::DispatchOpen(idx), project_id, now, final(self)@, effects_view(r@)),
    {
        let ghost p = self@;
        let mut out: Vec<Effect> = Vec::new();
        self.close_status_filter_popup();
        self.calendar_open = None;
        self.status_open = None;
        self.dispatch_open = Some(idx);
        assert(out@.len() == 0 ==> effects_view(out@) =~= Seq::<EffectView>::empty());
        out
    }

    #[verifier::spinoff_prover]
    fn on_dispatch_close(&mut self, project_id: i64, now: Now) -> (r: Vec<Effect>)
        requires
            can_handle(old(self)@, Message::DispatchClose),
        ensures
            transition(old(self)@, Message::DispatchClose, project_id, now, final(self)@, effects_view(r@)),
    {
        let ghost p = self@;
        let mut out: Vec<Effect> = Vec::new();
        self.close_dispatch_popup();
        assert(out@.len() == 0 ==> effects_view(out@) =~= Seq::<EffectView>::empty());
        out
    }

    #[verifier::spinoff_prover]
    fn on_assign_agent(&mut self, a0: usize, a1: AgentKind, project_id: i64, now: Now) -> (r: Vec<Effect>)
        requires
            can_handle(old(self)@, Message::AssignAgent(a0, a1)),
        ensures
            transition(old(self)@, Message::AssignAgent(a0, a1), project_id, now, final(self)@, effects_view(r@)),
    {
        let ghost p = self@;
        let mut out: Vec<Effect> = Vec::new();
        self.close_dispatch_popup();
        assert(out@.len() == 0 ==> effects_view(out@) =~= Seq::<EffectView>::empty());
        out
    }

    #[verifier::spinoff_prover]
    fn on_detail_close(&mut self, project_id: i64, now: Now) -> (r: Vec<Effect>)
        requires
            can_handle(old(self)@, Message::DetailClose),
        ensures
            transition(old(self)@, Message::DetailClose, project_id, now, final(self)@, effects_view(r@)),
    {
        let ghost p = self@;
        let mut out: Vec<Effect> = Vec::new();
        self.close_detail();
        assert(out@.len() == 0 ==> effects_view(out@) =~= Seq::<EffectView>::empty());
        out
    }

    #[verifier::spinoff_prover]
    fn on_detail_reply_input(&mut self, t: String, project_id: i64, now: Now) -> (r: Vec<Effect>)
        requires
            can_handle(old(self)@, Message::DetailReplyInput(t)),
        ensures
            transition(old(self)@, Message::DetailReplyInput(t), project_id, now, final(self)@, effects_view(r@)),
    {
        let ghost p = self@;
        let mut out: Vec<Effect> = Vec::new();
        self.detail_reply_draft = t;
        assert(out@.len() == 0 ==> effects_view(out@) =~= Seq::<EffectView>::empty());
        out
    }

    #[verifier::spinoff_prover]
    fn on_detail_reply_submit(&mut self, project_id: i64, now: Now) -> (r: Vec<Effect>)
        requires
            can_handle(old(self)@, Message::DetailReplySubmit),
        ensures
            transition(old(self)@, Message::DetailReplySubmit, project_id, now, final(self)@, effects_view(r@)),
    {
        let ghost p = self@;
        let mut out: Vec<Effect> = Vec::new();
        let mut draft = String::new();
        std::mem::swap(&mut draft, &mut self.detail_reply_draft);
        let trimmed = trim_str(draft.as_str());
        let cs = chars_of(trimmed.as_str());
        if cs.len() > 0 {
            self.push_optimistic_human_turn(draft);
        }
        assert(out@.len() == 0 ==> effects_view(out@) =~= Seq::<EffectView>::empty());
        out
    }

    #[verifier::spinoff_prover]
    fn on_status_open(&mut self, idx: usize, project_id: i64, now: Now) -> (r: Vec<Effect>)
        requires
            can_handle(old(self)@, Message::StatusOpen(idx)),
        ensures
            transition(old(self)@, Message::StatusOpen(idx), project_id, now, final(self)@, effects_view(r@)),
    {
        let ghost p = self@;
        let mut out: Vec<Effect> = Vec::new();
        self.close_status_filter_popup();
        self.dispatch_open = None;
        self.calendar_open = None;
        self.status_open = Some(idx);
        assert(out@.len() == 0 ==> effects_view(out@) =~= Seq::<EffectView>::empty());
        out
    }

    #[verifier::spinoff_prover]
    fn on_status_close(&mut self, project_id: i64, now: Now) -> (r: Vec<Effect>)
        requires
            can_handle(old(self)@, Message::StatusClose),
        ensures
            transition(old(self)@, Message::StatusClose, project_id, now, final(self)@, effects_view(r@)),
    {
        let ghost p = self@;
        let mut out: Vec<Effect> = Vec::new();
        self.close_status_popup();
        assert(out@.len() == 0 ==> effects_view(out@) =~= Seq::<EffectView>::empty());
        out
    }

    #[verifier::spinoff_prover]
    fn on_status_pick(&mut self, idx: usize, target: TodoState, project_id: i64, now: Now) -> (r: Vec<Effect>)
        requires
            can_handle(old(self)@, Message::StatusPick(idx, target)),
        ensures
            transition(old(self)@, Message::StatusPick(idx, target), project_id, now, final(self)@, effects_view(r@)),
    {
        let ghost p = self@;
        let mut out: Vec<Effect> = Vec::new();
        self.close_status_popup();
        if idx < self.items.len() {
            let id = self.items[idx].id;
            let paused = self.items[idx].paused;
            match target {
                TodoState::InProgress => {
                    if paused {
                        out.push(Effect::SetStatus { id, status: TodoStoredStatus::Todo });
                    } else {
                        let a = self.status_anchor.take();
                        match a {
                            Some(x) => {
                                self.dispatch_anchor = Some(x);
                            },
                            None => {},
                        }
                        self.dispatch_open = Some(idx);
                    }
                    self.status_open = None;
                    self.status_anchor = None;
                },
                TodoState::Pending => {
                    out.push(Effect::SetStatus { id, status: TodoStoredStatus::Todo });
                },
                TodoState::Done => {
                    out.push(Effect::SetStatus { id, status: TodoStoredStatus::Done });
                },
                TodoState::Suspended => {
                    out.push(Effect::SetStatus { id, status: TodoStoredStatus::Suspended });
                },
            }
            assert(effects_view(out@) =~= if target == TodoState::InProgress {
                if paused { seq![EffectView::SetStatus { id, status: TodoStoredStatus::Todo }] } else { Seq::empty() }
            } else {
                seq![EffectView::SetStatus { id, status: stored_status(target).unwrap() }]
            });
        }
        assert(out@.len() == 0 ==> effects_view(out@) =~= Seq::<EffectView>::empty());
        out
    }

    #[verifier::spinoff_prover]
    fn on_status_filter_open(&mut self, project_id: i64, now: Now) -> (r: Vec<Effect>)
        requires
            can_handle(old(self)@, Message::StatusFilterOpen),
        ensures
            transition(old(self)@, Message::StatusFilterOpen, project_id, now, final(self)@, effects_view(r@)),
    {
        let ghost p = self@;
        let mut out: Vec<Effect> = Vec::new();
        self.status_open = None;
        self.dispatch_open = None;
        self.calendar_open = None;
        self.status_filter_open = true;
        assert(out@.len() == 0 ==> effects_view(out@) =~= Seq::<EffectView>::empty());
        out
    }

    #[verifier::spinoff_prover]
    fn on_status_filter_close(&mut self, project_id: i64, now: Now) -> (r: Vec<Effect>)
        requires
            can_handle(old(self)@, Message::StatusFilterClose),
        ensures
            transition(old(self)@, Message::StatusFilterClose, project_id, now, final(self)@, effects_view(r@)),
    {
        let ghost p = self@;
        let mut out: Vec<Effect> = Vec::new();
        self.close_status_filter_popup();
        assert(out@.len() == 0 ==> effects_view(out@) =~= Seq::<EffectView>::empty());
        out
    }

    #[verifier::spinoff_prover]
    fn on_status_filter_pick(&mut self, f: StatusFilter, project_id: i64, now: Now) -> (r: Vec<Effect>)
        requires
            can_handle(old(self)@, Message::StatusFilterPick(f)),
        ensures
            transition(old(self)@, Message::StatusFilterPick(f), project_id, now, final(self)@, effects_view(r@)),
    {
        let ghost p = self@;
        let mut out: Vec<Effect> = Vec::new();
        self.status_filter = f;
        self.close_status_filter_popup();
        assert(out@.len() == 0 ==> effects_view(out@) =~= Seq::<EffectView>::empty());
        out
    }

    #[verifier::spinoff_prover]
    fn on_calendar_open(&mut self, idx: usize, project_id: i64, now: Now) -> (r: Vec<Effect>)
        requires
            can_handle(old(self)@, Message::CalendarOpen(idx)),
        ensures
            transition(old(self)@, Message::CalendarOpen(idx), project_id, now, final(self)@, effects_view(r@)),
    {
        let ghost p = self@;
        let mut out: Vec<Effect> = Vec::new();
        self.close_status_filter_popup();
        self.status_open = None;
        self.status_anchor = None;
        self.dispatch_open = None;
        let today = ymd_from_unix_secs(now.wall_ms / 1000);
        let mut month: u32 = today.1;
        if idx < self.items.len() {
            match &self.items[idx].plan_date {
                Some(pd) => {
                    match parse_month_day(pd.as_str()) {
                        Some((mm, _)) => {
                            month = mm;
                        },
                        None => {},
                    }
                },
                None => {},
            }
        }
        self.calendar_open = Some(idx);
        self.calendar_view = (today.0, month);
        assert(out@.len() == 0 ==> effects_view(out@) =~= Seq::<EffectView>::empty());
        out
    }

    #[verifier::spinoff_prover]
    fn on_calendar_close(&mut self, project_id: i64, now: Now) -> (r: Vec<Effect>)
        requires
            can_handle(old(self)@, Message::CalendarClose),
        ensures
            transition(old(self)@, Message::CalendarClose, project_id, now, final(self)@, effects_view(r@)),
    {
        let ghost p = self@;
        let mut out: Vec<Effect> = Vec::new();
        self.close_calendar_popup();
        assert(out@.len() == 0 ==> effects_view(out@) =~= Seq::<EffectView>::empty());
        out
    }

    #[verifier::spinoff_prover]
    fn on_calendar_prev_month(&mut self, project_id: i64, now: Now) -> (r: Vec<Effect>)
        requires
            can_handle(old(self)@, Message::CalendarPrevMonth),
        ensures
            transition(old(self)@, Message::CalendarPrevMonth, project_id, now, final(self)@, effects_view(r@)),
    {
        let ghost p = self@;
        let mut out: Vec<Effect> = Vec::new();
        let (y, mo) = self.calendar_view;
        self.calendar_view = if mo == 1 { (y - 1, 12) } else { (y, mo - 1) };
        assert(out@.len() == 0 ==> effects_view(out@) =~= Seq::<EffectView>::empty());
        out
    }

    #[verifier::spinoff_prover]
    fn on_calendar_next_month(&mut self, project_id: i64, now: Now) -> (r: Vec<Effect>)
        requires
            can_handle(old(self)@, Message::CalendarNextMonth),
        ensures
            transition(old(self)@, Message::CalendarNextMonth, project_id, now, final(self)@, effects_view(r@)),
    {
        let ghost p = self@;
        let mut out: Vec<Effect> = Vec::new();
        let (y, mo) = self.calendar_view;
        self.calendar_view = if mo == 12 { (y + 1, 1) } else { (y, mo + 1) };
        assert(out@.len() == 0 ==> effects_view(out@) =~= Seq::<EffectView>::empty());
        out
    }

    #[verifier::spinoff_prover]
    fn on_calendar_pick(&mut self, idx: usize, day: String, project_id: i64, now: Now) -> (r: Vec<Effect>)
        requires
            can_handle(old(self)@, Message::CalendarPick(idx, day)),
        ensures
            transition(old(self)@, Message::CalendarPick(idx, day), project_id, now, final(self)@, effects_view(r@)),
    {
        let ghost p = self@;
        let mut out: Vec<Effect> = Vec::new();
        if idx < self.items.len() {
            let id = self.items[idx].id;
            out.push(Effect::SetPlanDate { id, day });
            assert(effects_view(out@) =~= seq![out@[0]@]);
        }
        self.close_calendar_popup();
        assert(out@.len() == 0 ==> effects_view(out@) =~= Seq::<EffectView>::empty());
        out
    }

    #[verifier::spinoff_prover]
    fn on_content_edit_start(&mut self, idx: usize, project_id: i64, now: Now) -> (r: Vec<Effect>)
        requires
            can_handle(old(self)@, Message::ContentEditStart(idx)),
        ensures
            transition(old(self)@, Message::ContentEditStart(idx), project_id, now, final(self)@, effects_view(r@)),
    {
        let ghost p = self@;
        let mut out: Vec<Effect> = Vec::new();
        let same = match &self.editing_content {
            Some((cur, _)) => *cur == idx,
            None => false,
        };
        assert(same == (p.editing_content matches Some((cur, _)) && cur == idx));
        if !same {
            if idx < self.items.len() {
                let text = self.items[idx].text.clone();
                let text2 = text.clone();
                self.editing_content = Some((idx, text2));
                out.push(Effect::OpenContentEditor { text });
                assert(effects_view(out@) =~= seq![EffectView::OpenContentEditor { text: p.items[idx as int].text@ }]);
            }
            self.content_edit_focus_pending = true;
            assert(self@ == PanelView {
                editing_content: if idx < p.items.len() { Some((idx, p.items[idx as int].text@)) } else { p.editing_content },
                content_edit_focus_pending: true,
                ..p
            });
        }
        assert(out@.len() == 0 ==> effects_view(out@) =~= Seq::<EffectView>::empty());
        out
    }

    #[verifier::spinoff_prover]
    fn on_content_edited(&mut self, t: String, enter: bool, project_id: i64, now: Now) -> (r: Vec<Effect>)
        requires
            can_handle(old(self)@, Message::ContentEdited(t, enter)),
        ensures
            transition(old(self)@, Message::ContentEdited(t, enter), project_id, now, final(self)@, effects_view(r@)),
    {
        let ghost p = self@;
        let mut out: Vec<Effect> = Vec::new();
        let cur: Option<usize> = match &self.editing_content {
            Some((i, _)) => Some(*i),
            None => None,
        };
        match cur {
            None => {},
            Some(i) => {
                if !enter {
                    self.editing_content = Some((i, t));
                } else {
                    let new_text = trim_str(t.as_str());
                    let cs = chars_of(new_text.as_str());
                    self.editing_content = None;
                    if i < self.items.len() && cs.len() > 0 && !str_eq(self.items[i].text.as_str(), new_text.as_str()) {
                        let id = self.items[i].id;
                        out.push(Effect::EditText { id, text: new_text });
                        assert(effects_view(out@) =~= seq![out@[0]@]);
                    }
                }
            },
        }
        assert(out@.len() == 0 ==> effects_view(out@) =~= Seq::<EffectView>::empty());
        out
    }

    #[verifier::spinoff_prover]
    fn on_clear_list_request(&mut self, project_id: i64, now: Now) -> (r: Vec<Effect>)
        requires
            can_handle(old(self)@, Message::ClearListRequest),
        ensures
            transition(old(self)@, Message::ClearListRequest, project_id, now, final(self)@, effects_view(r@)),
    {
        let ghost p = self@;
        let mut out: Vec<Effect> = Vec::new();
        self.clear_confirm = true;
        assert(out@.len() == 0 ==> effects_view(out@) =~= Seq::<EffectView>::empty());
        out
    }

    #[verifier::spinoff_prover]
    fn on_clear_list_cancel(&mut self, project_id: i64, now: Now) -> (r: Vec<Effect>)
        requires
            can_handle(old(self)@, Message::ClearListCancel),
        ensures
            transition(old(self)@, Message::ClearListCancel, project_id, now, final(self)@, effects_view(r@)),
    {
        let ghost p = self@;
        let mut out: Vec<Effect> = Vec::new();
        self.clear_confirm = false;
        assert(out@.len() == 0 ==> effects_view(out@) =~= Seq::<EffectView>::empty());
        out
    }

    #[verifier::spinoff_prover]
    fn on_clear_list_confirm(&mut self, project_id: i64, now: Now) -> (r: Vec<Effect>)
        requires
            can_handle(old(self)@, Message::ClearListConfirm),
        ensures
            transition(old(self)@, Message::ClearListConfirm, project_id, now, final(self)@, effects_view(r@)),
    {
        let ghost p = self@;
        let mut out: Vec<Effect> = Vec::new();
        self.clear_confirm = false;
        assert(out@.len() == 0 ==> effects_view(out@) =~= Seq::<EffectView>::empty());
        out
    }

    #[verifier::spinoff_prover]
    fn on_loaded(&mut self, todos: Vec<TodoInfo>, project_id: i64, now: Now) -> (r: Vec<Effect>)
        requires
            can_handle(old(self)@, Message::Loaded(todos)),
        ensures
            transition(old(self)@, Message::Loaded(todos), project_id, now, final(self)@, effects_view(r@)),
    {
        let ghost p = self@;
        let mut out: Vec<Effect> = Vec::new();
        self.items = todos;
        assert(out@.len() == 0 ==> effects_view(out@) =~= Seq::<EffectView>::empty());
        out
    }

    #[verifier::spinoff_prover]
    fn on_mutated(&mut self, res: Result<(), String>, project_id: i64, now: Now) -> (r: Vec<Effect>)
        requires
            can_handle(old(self)@, Message::Mutated(res)),
        ensures
            transition(old(self)@, Message::Mutated(res), project_id, now, final(self)@, effects_view(r@)),
    {
        let ghost p = self@;
        let mut out: Vec<Effect> = Vec::new();
        out.push(Effect::RefreshTodos);
        assert(effects_view(out@) =~= seq![EffectView::RefreshTodos]);
        assert(out@.len() == 0 ==> effects_view(out@) =~= Seq::<EffectView>::empty());
        out
    }

    #[verifier::spinoff_prover]
    fn on_categories_loaded(&mut self, cats: Vec<CategoryInfo>, project_id: i64, now: Now) -> (r: Vec<Effect>)
        requires
            can_handle(old(self)@, Message::CategoriesLoaded(cats)),
        ensures
            transition(old(self)@, Message::CategoriesLoaded(cats), project_id, now, final(self)@, effects_view(r@)),
    {
        let ghost p = self@;
        let mut out: Vec<Effect> = Vec::new();
        self.categories = cats;
        assert(out@.len() == 0 ==> effects_view(out@) =~= Seq::<EffectView>::empty());
        out
    }

    #[verifier::spinoff_prover]
    fn on_category_mutated(&mut self, res: Result<(), String>, project_id: i64, now: Now) -> (r: Vec<Effect>)
        requires
            can_handle(old(self)@, Message::CategoryMutated(res)),
        ensures
            transition(old(self)@, Message::CategoryMutated(res), project_id, now, final(self)@, effects_view(r@)),
    {
        let ghost p = self@;
        let mut out: Vec<Effect> = Vec::new();
        out.push(Effect::RefreshCategoriesAndTodos);
        assert(effects_view(out@) =~= seq![EffectView::RefreshCategoriesAndTodos]);
        assert(out@.len() == 0 ==> effects_view(out@) =~= Seq::<EffectView>::empty());
        out
    }

    #[verifier::spinoff_prover]
    fn on_category_toggle_expand(&mut self, id: i64, project_id: i64, now: Now) -> (r: Vec<Effect>)
        requires
            can_handle(old(self)@, Message::CategoryToggleExpand(id)),
        ensures
            transition(old(self)@, Message::CategoryToggleExpand(id), project_id, now, final(self)@, effects_view(r@)),
    {
        let ghost p = self@;
        let mut out: Vec<Effect> = Vec::new();
        self.toggle_category_expanded(id);
        assert(out@.len() == 0 ==> effects_view(out@) =~= Seq::<EffectView>::empty());
        out
    }

    #[verifier::spinoff_prover]
    fn on_category_select(&mut self, f: CategoryFilter, project_id: i64, now: Now) -> (r: Vec<Effect>)
        requires
            can_handle(old(self)@, Message::CategorySelect(f)),
        ensures
            transition(old(self)@, Message::CategorySelect(f), project_id, now, final(self)@, effects_view(r@)),
    {
        let ghost p = self@;
        let mut out: Vec<Effect> = Vec::new();
        self.category_selected = f;
        self.clear_search();
        assert(out@.len() == 0 ==> effects_view(out@) =~= Seq::<EffectView>::empty());
        out
    }

    #[verifier::spinoff_prover]
    fn on_select_view(&mut self, v: TodoView, project_id: i64, now: Now) -> (r: Vec<Effect>)
        requires
            can_handle(old(self)@, Message::SelectView(v)),
        ensures
            transition(old(self)@, Message::SelectView(v), project_id, now, final(self)@, effects_view(r@)),
    {
        let ghost p = self@;
        let mut out: Vec<Effect> = Vec::new();
        self.view = v;
        assert(out@.len() == 0 ==> effects_view(out@) =~= Seq::<EffectView>::empty());
        out
    }

    #[verifier::spinoff_prover]
    fn on_category_new_child(&mut self, parent: i64, project_id: i64, now: Now) -> (r: Vec<Effect>)
        requires
            can_handle(old(self)@, Message::CategoryNewChild(parent)),
        ensures
            transition(old(self)@, Message::CategoryNewChild(parent), project_id, now, final(self)@, effects_view(r@)),
    {
        let ghost p = self@;
        let mut out: Vec<Effect> = Vec::new();
        out.push(Effect::AddCategory { parent: Some(parent) });
        assert(effects_view(out@) =~= seq![EffectView::AddCategory { parent: Some(parent) }]);
        assert(out@.len() == 0 ==> effects_view(out@) =~= Seq::<EffectView>::empty());
        out
    }

    #[verifier::spinoff_prover]
    fn on_category_new_sibling(&mut self, parent: Option<i64>, project_id: i64, now: Now) -> (r: Vec<Effect>)
        requires
            can_handle(old(self)@, Message::CategoryNewSibling(parent)),
        ensures
            transition(old(self)@, Message::CategoryNewSibling(parent), project_id, now, final(self)@, effects_view(r@)),
    {
        let ghost p = self@;
        let mut out: Vec<Effect> = Vec::new();
        out.push(Effect::AddCategory { parent });
        assert(effects_view(out@) =~= seq![EffectView::AddCategory { parent }]);
        assert(out@.len() == 0 ==> effects_view(out@) =~= Seq::<EffectView>::empty());
        out
    }

    #[verifier::spinoff_prover]
    fn on_category_delete(&mut self, id: i64, project_id: i64, now: Now) -> (r: Vec<Effect>)
        requires
            can_handle(old(self)@, Message::CategoryDelete(id)),
        ensures
            transition(old(self)@, Message::CategoryDelete(id), project_id, now, final(self)@, effects_view(r@)),
    {
        let ghost p = self@;
        let mut out: Vec<Effect> = Vec::new();
        out.push(Effect::DeleteCategory { id });
        assert(effects_view(out@) =~= seq![EffectView::DeleteCategory { id }]);
        assert(out@.len() == 0 ==> effects_view(out@) =~= Seq::<EffectView>::empty());
        out
    }

    #[verifier::spinoff_prover]
    fn on_category_rename_start(&mut self, id: i64, project_id: i64, now: Now) -> (r: Vec<Effect>)
        requires
            can_handle(old(self)@, Message::CategoryRenameStart(id)),
        ensures
            transition(old(self)@, Message::CategoryRenameStart(id), project_id, now, final(self)@, effects_view(r@)),
    {
        let ghost p = self@;
        let mut out: Vec<Effect> = Vec::new();
        match find_category(&self.categories, id) {
            None => {},
            Some(k) => {
                let name = self.categories[k].name.clone();
                self.category_renaming = Some((id, name));
                self.category_rename_focus_pending = true;
            },
        }
        assert(out@.len() == 0 ==> effects_view(out@) =~= Seq::<EffectView>::empty());
        out
    }

    #[verifier::spinoff_prover]
    fn on_category_rename_edit(&mut self, t: String, project_id: i64, now: Now) -> (r: Vec<Effect>)
        requires
            can_handle(old(self)@, Message::CategoryRenameEdit(t)),
        ensures
            transition(old(self)@, Message::CategoryRenameEdit(t), project_id, now, final(self)@, effects_view(r@)),
    {
        let ghost p = self@;
        let mut out: Vec<Effect> = Vec::new();
        let cur: Option<i64> = match &self.category_renaming {
            Some((id, _)) => Some(*id),
            None => None,
        };
        match cur {
            Some(id) => {
                self.category_renaming = Some((id, t));
            },
            None => {},
        }
        assert(out@.len() == 0 ==> effects_view(out@) =~= Seq::<EffectView>::empty());
        out
    }

    #[verifier::spinoff_prover]
    fn on_category_rename_submit(&mut self, project_id: i64, now: Now) -> (r: Vec<Effect>)
        requires
            can_handle(old(self)@, Message::CategoryRenameSubmit),
        ensures
            transition(old(self)@, Message::CategoryRenameSubmit, project_id, now, final(self)@, effects_view(r@)),
    {
        let ghost p = self@;
        let mut out: Vec<Effect> = Vec::new();
        match self.commit_category_rename() {
            Some((id, name)) => {
                out.push(Effect::RenameCategory { id, name });
                assert(effects_view(out@) =~= seq![out@[0]@]);
            },
            None => {},
        }
        assert(out@.len() == 0 ==> effects_view(out@) =~= Seq::<EffectView>::empty());
        out
    }

    #[verifier::spinoff_prover]
    fn on_category_move_sibling(&mut self, id: i64, direction: CategoryMoveDirection, project_id: i64, now: Now) -> (r: Vec<Effect>)
        requires
            can_handle(old(self)@, Message::CategoryMoveSibling(id, direction)),
        ensures
            transition(old(self)@, Message::CategoryMoveSibling(id, direction), project_id, now, final(self)@, effects_view(r@)),
    {
        let ghost p = self@;
        let mut out: Vec<Effect> = Vec::new();
        out.push(Effect::MoveCategorySibling { id, direction });
        assert(effects_view(out@) =~= seq![EffectView::MoveCategorySibling { id, direction }]);
        assert(out@.len() == 0 ==> effects_view(out@) =~= Seq::<EffectView>::empty());
        out
    }

    /// Handles one message: updates the panel and answers what the caller has
    /// to do.
    pub fn update(&mut self, msg: Message, project_id: i64, now: Now) -> (r: Vec<Effect>)
        requires
            can_handle(old(self)@, msg),
        ensures
            transition(old(self)@, msg, project_id, now, final(self)@, effects_view(r@)),
    {
        match msg {
            Message::Toggle(idx) => self.on_toggle(idx, project_id, now),
            Message::AddEdited(t) => self.on_add_edited(t, project_id, now),
            Message::AddSubmit => self.on_add_submit(project_id, now),
            Message::AddResizeStart => Vec::new(),
            Message::RowSelect(sel) => self.on_row_select(sel, project_id, now),
            Message::SearchInput(t) => self.on_search_input(t, project_id, now),
            Message::SearchSubmit => self.on_search_submit(project_id, now),
            Message::ToggleListCollapse => Vec::new(),
            Message::DragMove(over) => self.on_drag_move(over, project_id, now),
            Message::DragEnd => self.on_drag_end(project_id, now),
            Message::DispatchOpen(idx) => self.on_dispatch_open(idx, project_id, now),
            Message::DispatchClose => self.on_dispatch_close(project_id, now),
            Message::AssignAgent(a0, a1) => self.on_assign_agent(a0, a1, project_id, now),
            Message::DetailOpen(a0) => Vec::new(),
            Message::DetailClose => self.on_detail_close(project_id, now),
            Message::DetailReplyInput(t) => self.on_detail_reply_input(t, project_id, now),
            Message::DetailReplySubmit => self.on_detail_reply_submit(project_id, now),
            Message::StatusOpen(idx) => self.on_status_open(idx, project_id, now),
            Message::StatusClose => self.on_status_close(project_id, now),
            Message::StatusPick(idx, target) => self.on_status_pick(idx, target, project_id, now),
            Message::StatusFilterOpen => self.on_status_filter_open(project_id, now),
            Message::StatusFilterClose => self.on_status_filter_close(project_id, now),
            Message::StatusFilterPick(f) => self.on_status_filter_pick(f, project_id, now),
            Message::CalendarOpen(idx) => self.on_calendar_open(idx, project_id, now),
            Message::CalendarClose => self.on_calendar_close(project_id, now),
            Message::CalendarPrevMonth => self.on_calendar_prev_month(project_id, now),
            Message::CalendarNextMonth => self.on_calendar_next_month(project_id, now),
            Message::CalendarPick(idx, day) => self.on_calendar_pick(idx, day, project_id, now),
            Message::ContentEditStart(idx) => self.on_content_edit_start(idx, project_id, now),
            Message::ContentEdited(t, enter) => self.on_content_edited(t, enter, project_id, now),
            Message::ClearListRequest => self.on_clear_list_request(project_id, now),
            Message::ClearListCancel => self.on_clear_list_cancel(project_id, now),
            Message::ClearListConfirm => self.on_clear_list_confirm(project_id, now),
            Message::Loaded(todos) => self.on_loaded(todos, project_id, now),
            Message::Mutated(res) => self.on_mutated(res, project_id, now),
            Message::CategoriesLoaded(cats) => self.on_categories_loaded(cats, project_id, now),
            Message::CategoryMutated(res) => self.on_category_mutated(res, project_id, now),
            Message::CategoryToggleExpand(id) => self.on_category_toggle_expand(id, project_id, now),
            Message::CategorySelect(f) => self.on_category_select(f, project_id, now),
            Message::SelectView(v) => self.on_select_view(v, project_id, now),
            Message::CategoryContextMenuOpen(a0) => Vec::new(),
            Message::CategoryNewChild(parent) => self.on_category_new_child(parent, project_id, now),
            Message::CategoryNewSibling(parent) => self.on_category_new_sibling(parent, project_id, now),
            Message::CategoryDelete(id) => self.on_category_delete(id, project_id, now),
            Message::CategoryRenameStart(id) => self.on_category_rename_start(id, project_id, now),
            Message::CategoryRenameEdit(t) => self.on_category_rename_edit(t, project_id, now),
            Message::CategoryRenameSubmit => self.on_category_rename_submit(project_id, now),
            Message::CategoryMoveSibling(id, direction) => self.on_category_move_sibling(id, direction, project_id, now),
            Message::CategoryReparentPickerOpen(a0) => Vec::new(),
            Message::CategoryPickerOpenForTodo(a0) => Vec::new(),
        }
    }
}

/// How long from `mono_ms` until the highlight of a newly added task is due
/// to end: what is left of it while it runs; nothing when nothing is
/// highlighted or its end has come.
pub open spec fn flash_wake(flash: Option<Flash>, mono_ms: u64) -> Option<u64> {
    match flash {
        None => None,
        Some(f) => if mono_ms < f.until_ms { Some((f.until_ms - mono_ms) as u64) } else { None },
    }
}

/// The panel once the highlight's time is checked at `mono_ms`: when it is
/// up, the highlight ends and the new task is unselected unless the
/// selection moved meanwhile.
pub open spec fn flash_advanced<A>(p: PanelView<A>, mono_ms: u64) -> PanelView<A> {
    match p.flash {
        Some(f) => if f.until_ms <= mono_ms {
            PanelView { selected_row: if p.selected_row == Some(f.idx) { None } else { p.selected_row }, flash: None, ..p }
        } else {
            p
        },
        None => p,
    }
}

/// The text of the first task dispatched to session `session`.
pub open spec fn title_for_session(items: Seq<TodoInfo>, session: Seq<char>) -> Option<Seq<char>>
    decreases items.len(),
{
    if items.len() == 0 {
        None
    } else if items[0].dispatch_session_id matches Some(s) && s@ == session {
        Some(items[0].text@)
    } else {
        title_for_session(items.drop_first(), session)
    }
}

/// What committing the content edit asks for: the task's id and the trimmed
/// draft, unless no edit is open, the draft is blank, the task is gone or its
/// text is unchanged.
pub open spec fn content_request<A>(p: PanelView<A>) -> Option<(i64, Seq<char>)> {
    match p.editing_content {
        None => None,
        Some((idx, d)) => {
            let t = trim(d);
            if t.len() == 0 || idx >= p.items.len() || p.items[idx as int].text@ == t {
                None
            } else {
                Some((p.items[idx as int].id, t))
            }
        },
    }
}

impl<A> WorkspaceState<A> {
    /// Highlights task `idx` as newly added until `mono_ms` plus the highlight
    /// time, and asks for the list to scroll to the top.
    pub fn start_flash(&mut self, idx: usize, mono_ms: u64)
        ensures
            final(self)@ == (PanelView {
                selected_row: Some(idx),
                flash: Some(Flash { idx, until_ms: if mono_ms + ADD_SELECT_HIGHLIGHT_MS <= u64::MAX { (mono_ms + ADD_SELECT_HIGHLIGHT_MS) as u64 } else { u64::MAX } }),
                scroll_to_top: true,
                ..old(self)@
            }),
    {
        self.selected_row = Some(idx);
        self.flash = Some(Flash { idx, until_ms: mono_ms.saturating_add(ADD_SELECT_HIGHLIGHT_MS) });
        self.scroll_to_top = true;
    }

    /// `next_flash_wake`: the delay after which the highlight is due to end,
    /// so that the next frame is scheduled exactly then.
    pub fn next_flash_wake(&self, mono_ms: u64) -> (r: Option<u64>)
        ensures
            r == flash_wake(self@.flash, mono_ms),
    {
        match self.flash {
            None => None,
            Some(f) => if mono_ms < f.until_ms { Some(f.until_ms - mono_ms) } else { None },
        }
    }

    /// Ends the highlight once its time is up, unselecting the task unless the
    /// selection moved meanwhile.
    pub fn advance_flash(&mut self, mono_ms: u64)
        ensures
            final(self)@ == flash_advanced(old(self)@, mono_ms),
    {
        match self.flash {
            None => {},
            Some(f) => {
                if f.until_ms <= mono_ms {
                    if self.selected_row == Some(f.idx) {
                        self.selected_row = None;
                    }
                    self.flash = None;
                }
            },
        }
    }

    /// Takes the pending scroll-to-top request.
    pub fn take_scroll_to_top(&mut self) -> (r: bool)
        ensures
            r == old(self)@.scroll_to_top,
            final(self)@ == (PanelView { scroll_to_top: false, ..old(self)@ }),
    {
        let pending = self.scroll_to_top;
        self.scroll_to_top = false;
        pending
    }

    /// The loaded tasks.
    pub fn items(&self) -> (r: &[TodoInfo])
        ensures
            r@ == self@.items,
    {
        self.items.as_slice()
    }

    /// `task_title_for_session`: the text of the task dispatched to session
    /// `session_id`, if there is one.
    pub fn task_title_for_session(&self, session_id: &str) -> (r: Option<&str>)
        ensures
            match r {
                Some(t) => title_for_session(self@.items, session_id@) == Some(t@),
                None => title_for_session(self@.items, session_id@) is None,
            },
    {
        let mut i: usize = 0;
        assert(self@.items.skip(0) =~= self@.items);
        while i < self.items.len()
            invariant
                i <= self@.items.len(),
                title_for_session(self@.items, session_id@) == title_for_session(self@.items.skip(i as int), session_id@),
            decreases self@.items.len() - i,
        {
            assert(self@.items.skip(i as int).drop_first() =~= self@.items.skip(i + 1));
            let hit = match &self.items[i].dispatch_session_id {
                Some(sid) => str_eq(sid.as_str(), session_id),
                None => false,
            };
            if hit {
                return Some(self.items[i].text.as_str());
            }
            i = i + 1;
        }
        None
    }

    /// Whether the dispatch popup is open.
    pub fn dispatch_popup_open(&self) -> (r: bool)
        ensures
            r == self@.dispatch_open is Some,
    {
        self.dispatch_open.is_some()
    }

    /// Whether a card's status popup is open.
    pub fn status_popup_open(&self) -> (r: bool)
        ensures
            r == self@.status_open is Some,
    {
        self.status_open.is_some()
    }

    /// Whether the date picker is open.
    pub fn calendar_popup_open(&self) -> (r: bool)
        ensures
            r == self@.calendar_open is Some,
    {
        self.calendar_open.is_some()
    }

    /// Records where the dispatch popup opens.
    pub fn set_dispatch_anchor(&mut self, anchor: A)
        ensures
            final(self)@ == (PanelView { dispatch_anchor: Some(anchor), ..old(self)@ }),
    {
        self.dispatch_anchor = Some(anchor);
    }

    /// Records where the status popup opens.
    pub fn set_status_anchor(&mut self, anchor: A)
        ensures
            final(self)@ == (PanelView { status_anchor: Some(anchor), ..old(self)@ }),
    {
        self.status_anchor = Some(anchor);
    }

    /// Records where the date picker opens.
    pub fn set_calendar_anchor(&mut self, anchor: A)
        ensures
            final(self)@ == (PanelView { calendar_anchor: Some(anchor), ..old(self)@ }),
    {
        self.calendar_anchor = Some(anchor);
    }

    /// Records where the status filter popup opens.
    pub fn set_status_filter_anchor(&mut self, anchor: A)
        ensures
            final(self)@ == (PanelView { status_filter_anchor: Some(anchor), ..old(self)@ }),
    {
        self.status_filter_anchor = Some(anchor);
    }

    /// Whether the search box holds the focus.
    pub fn search_focused(&self) -> (r: bool)
        ensures
            r == self@.search_focused,
    {
        self.search_focused
    }

    /// Records whether the search box holds the focus.
    pub fn set_search_focused(&mut self, focused: bool)
        ensures
            final(self)@ == (PanelView { search_focused: focused, ..old(self)@ }),
    {
        self.search_focused = focused;
    }

    /// Whether the new-task box holds the focus.
    pub fn add_focused(&self) -> (r: bool)
        ensures
            r == self@.add_focused,
    {
        self.add_focused
    }

    /// Records whether the new-task box holds the focus.
    pub fn set_add_focused(&mut self, focused: bool)
        ensures
            final(self)@ == (PanelView { add_focused: focused, ..old(self)@ }),
    {
        self.add_focused = focused;
    }

    /// Whether the content editor holds the focus.
    pub fn content_edit_focused(&self) -> (r: bool)
        ensures
            r == self@.content_edit_focused,
    {
        self.content_edit_focused
    }

    /// Records whether the content editor holds the focus.
    pub fn set_content_edit_focused_flag(&mut self, focused: bool)
        ensures
            final(self)@ == (PanelView { content_edit_focused: focused, ..old(self)@ }),
    {
        self.content_edit_focused = focused;
    }

    /// Takes the pending request to focus the content editor.
    pub fn take_content_edit_focus_pending(&mut self) -> (r: bool)
        ensures
            r == old(self)@.content_edit_focus_pending,
            final(self)@ == (PanelView { content_edit_focus_pending: false, ..old(self)@ }),
    {
        let pending = self.content_edit_focus_pending;
        self.content_edit_focus_pending = false;
        pending
    }

    /// `commit_content_edit`: leaves the content editor; answers the task
    /// id and new text to write when the trimmed draft is not blank and
    /// differs from the task's text.
    pub fn commit_content_edit(&mut self) -> (r: Option<(i64, String)>)
        ensures
            final(self)@ == (PanelView { editing_content: None, ..old(self)@ }),
            match r {
                Some((id, t)) => content_request(old(self)@) == Some((id, t@)),
                None => content_request(old(self)@) is None,
            },
    {
        let taken = self.editing_content.take();
        let (idx, draft) = match taken {
            Some(p) => p,
            None => {
                return None;
            },
        };
        let new_text = trim_str(draft.as_str());
        let cs = chars_of(new_text.as_str());
        if cs.len() == 0 {
            return None;
        }
        if idx >= self.items.len() {
            return None;
        }
        if str_eq(self.items[idx].text.as_str(), new_text.as_str()) {
            return None;
        }
        Some((self.items[idx].id, new_text))
    }

    /// Whether a drag is in progress.
    pub fn drag_active(&self) -> (r: bool)
        ensures
            r == self@.drag is Some,
    {
        self.drag.is_some()
    }

    /// Abandons the drag in progress.
    pub fn cancel_drag(&mut self)
        ensures
            final(self)@ == (PanelView { drag: None, ..old(self)@ }),
    {
        self.drag = None;
    }

    /// The drag in progress.
    pub fn drag(&self) -> (r: Option<TodoDrag>)
        ensures
            r == self@.drag,
    {
        self.drag
    }

    /// Applies the search draft as the keyword.
    pub fn commit_search(&mut self)
        ensures
            final(self)@ == (PanelView { search: old(self)@.search_draft, ..old(self)@ }),
    {
        self.search = self.search_draft.clone();
    }

    /// The applied search keyword.
    pub fn search(&self) -> (r: &str)
        ensures
            r@ == self@.search,
    {
        self.search.as_str()
    }

    /// The search draft.
    pub fn search_draft(&self) -> (r: &str)
        ensures
            r@ == self@.search_draft,
    {
        self.search_draft.as_str()
    }

    /// The new-task draft.
    pub fn add_draft(&self) -> (r: &str)
        ensures
            r@ == self@.add_draft,
    {
        self.add_draft.as_str()
    }

    /// The selected card.
    pub fn selected_row(&self) -> (r: Option<usize>)
        ensures
            r == self@.selected_row,
    {
        self.selected_row
    }

    /// The card whose content is being edited, and the draft.
    pub fn editing_content(&self) -> (r: Option<(usize, &str)>)
        ensures
            match r {
                Some((i, d)) => self@.editing_content == Some((i, d@)),
                None => self@.editing_content is None,
            },
    {
        match &self.editing_content {
            Some((i, d)) => Some((*i, d.as_str())),
            None => None,
        }
    }

    /// The loaded categories.
    pub fn categories(&self) -> (r: &[CategoryInfo])
        ensures
            r@ == self@.categories,
    {
        self.categories.as_slice()
    }

    /// The expanded category nodes.
    pub fn category_expanded(&self) -> (r: &std::collections::HashSet<i64>)
        ensures
            r@ == self@.category_expanded,
    {
        &self.category_expanded
    }

    /// The selected category filter.
    pub fn category_selected(&self) -> (r: CategoryFilter)
        ensures
            r == self@.category_selected,
    {
        self.category_selected
    }

    /// The selected status filter.
    pub fn status_filter(&self) -> (r: StatusFilter)
        ensures
            r == self@.status_filter,
    {
        self.status_filter
    }

    /// Whether the status filter popup is open.
    pub fn status_filter_popup_open(&self) -> (r: bool)
        ensures
            r == self@.status_filter_open,
    {
        self.status_filter_open
    }

    /// Opens the status filter popup.
    pub fn open_status_filter(&mut self)
        ensures
            final(self)@ == (PanelView { status_filter_open: true, ..old(self)@ }),
    {
        self.status_filter_open = true;
    }

    /// The view mode of the right-hand area.
    pub fn view_mode(&self) -> (r: TodoView)
        ensures
            r == self@.view,
    {
        self.view
    }

    /// The category being renamed and its draft.
    pub fn category_renaming(&self) -> (r: Option<(i64, &str)>)
        ensures
            match r {
                Some((i, d)) => self@.category_renaming == Some((i, d@)),
                None => self@.category_renaming is None,
            },
    {
        match &self.category_renaming {
            Some((i, d)) => Some((*i, d.as_str())),
            None => None,
        }
    }

    /// Whether the rename box holds the focus.
    pub fn category_rename_focused(&self) -> (r: bool)
        ensures
            r == self@.category_rename_focused,
    {
        self.category_rename_focused
    }

    /// Records whether the rename box holds the focus.
    pub fn set_category_rename_focused_flag(&mut self, focused: bool)
        ensures
            final(self)@ == (PanelView { category_rename_focused: focused, ..old(self)@ }),
    {
        self.category_rename_focused = focused;
    }

    /// Takes the pending request to focus the rename box.
    pub fn take_category_rename_focus_pending(&mut self) -> (r: bool)
        ensures
            r == old(self)@.category_rename_focus_pending,
            final(self)@ == (PanelView { category_rename_focus_pending: false, ..old(self)@ }),
    {
        let pending = self.category_rename_focus_pending;
        self.category_rename_focus_pending = false;
        pending
    }

    /// Replaces the rename draft, when a rename is open.
    pub fn set_category_rename_draft(&mut self, text: String)
        ensures
            final(self)@ == (PanelView {
                category_renaming: match old(self)@.category_renaming {
                    Some((id, _)) => Some((id, text@)),
                    None => None,
                },
                ..old(self)@
            }),
    {
        let cur: Option<i64> = match &self.category_renaming {
            Some((id, _)) => Some(*id),
            None => None,
        };
        match cur {
            Some(id) => {
                self.category_renaming = Some((id, text));
            },
            None => {},
        }
    }

    /// Commits the rename when its box loses the focus.
    pub fn commit_category_rename_for_blur(&mut self) -> (r: Option<(i64, String)>)
        ensures
            final(self)@ == (PanelView { category_renaming: None, ..old(self)@ }),
            match r {
                Some((id, name)) => rename_request(old(self)@) == Some((id, name@)),
                None => rename_request(old(self)@) is None,
            },
    {
        self.commit_category_rename()
    }

    /// Whether the detail popup is open.
    pub fn detail_popup_open(&self) -> (r: bool)
        ensures
            r == self@.detail_open is Some,
    {
        self.detail_open.is_some()
    }

    /// Whether the clear-list confirmation is open.
    pub fn clear_confirm_open(&self) -> (r: bool)
        ensures
            r == self@.clear_confirm,
    {
        self.clear_confirm
    }

    /// The turns shown in the detail popup.
    pub fn detail_turns(&self) -> (r: &[TurnRecord])
        ensures
            r@ == self@.detail_turns,
    {
        self.detail_turns.as_slice()
    }

    /// The reply draft of the detail popup.
    pub fn detail_reply_draft(&self) -> (r: &str)
        ensures
            r@ == self@.detail_reply_draft,
    {
        self.detail_reply_draft.as_str()
    }

    /// Whether a reply is being processed.
    pub fn detail_processing(&self) -> (r: bool)
        ensures
            r == self@.detail_processing,
    {
        self.detail_processing
    }

    /// Whether the reply box holds the focus.
    pub fn detail_reply_focused(&self) -> (r: bool)
        ensures
            r == self@.detail_reply_focused,
    {
        self.detail_reply_focused
    }

    /// The card whose detail popup is open.
    pub fn detail_open_idx(&self) -> (r: Option<usize>)
        ensures
            r == self@.detail_open,
    {
        self.detail_open
    }

    /// The content of the last turn when it is a human one.
    pub fn last_reply_text(&self) -> (r: Option<String>)
        ensures
            match r {
                Some(t) => self@.detail_turns.len() > 0 && self@.detail_turns.last().role@ == "human"@
                    && t@ == self@.detail_turns.last().content@,
                None => self@.detail_turns.len() == 0 || self@.detail_turns.last().role@ != "human"@,
            },
    {
        let n = self.detail_turns.len();
        if n == 0 {
            return None;
        }
        let last = &self.detail_turns[n - 1];
        if str_eq(last.role.as_str(), "human") {
            Some(last.content.clone())
        } else {
            None
        }
    }

    /// Records whether the reply box holds the focus.
    pub fn set_detail_reply_focused_flag(&mut self, focused: bool)
        ensures
            final(self)@ == (PanelView { detail_reply_focused: focused, ..old(self)@ }),
    {
        self.detail_reply_focused = focused;
    }

    /// Opens the detail popup of card `idx` with the turns read for it.
    pub fn open_detail(&mut self, idx: usize, turns: Vec<TurnRecord>)
        ensures
            final(self)@ == (PanelView { detail_open: Some(idx), detail_turns: turns@, detail_reply_draft: Seq::empty(), ..old(self)@ }),
    {
        self.detail_open = Some(idx);
        self.detail_turns = turns;
        self.detail_reply_draft = String::new();
    }

    /// Replaces the turns with the daemon's, ending the processing state.
    pub fn replace_detail_turns(&mut self, turns: Vec<TurnRecord>)
        ensures
            final(self)@ == (PanelView { detail_turns: turns@, detail_processing: false, ..old(self)@ }),
    {
        self.detail_turns = turns;
        self.detail_processing = false;
    }

    /// The month the date picker shows.
    pub fn calendar_view(&self) -> (r: (i32, u32))
        ensures
            r == self@.calendar_view,
    {
        self.calendar_view
    }

    /// The card whose date picker is open.
    pub fn calendar_open_idx(&self) -> (r: Option<usize>)
        ensures
            r == self@.calendar_open,
    {
        self.calendar_open
    }

    /// The card whose status popup is open.
    pub fn status_open_idx(&self) -> (r: Option<usize>)
        ensures
            r == self@.status_open,
    {
        self.status_open
    }

    /// The card whose dispatch popup is open.
    pub fn dispatch_open_idx(&self) -> (r: Option<usize>)
        ensures
            r == self@.dispatch_open,
    {
        self.dispatch_open
    }

    /// Where the dispatch popup opens.
    pub fn dispatch_anchor(&self) -> (r: &Option<A>)
        ensures
            *r == self@.dispatch_anchor,
    {
        &self.dispatch_anchor
    }

    /// Where the status popup opens.
    pub fn status_anchor(&self) -> (r: &Option<A>)
        ensures
            *r == self@.status_anchor,
    {
        &self.status_anchor
    }

    /// Where the date picker opens.
    pub fn calendar_anchor(&self) -> (r: &Option<A>)
        ensures
            *r == self@.calendar_anchor,
    {
        &self.calendar_anchor
    }

    /// Where the status filter popup opens.
    pub fn status_filter_anchor(&self) -> (r: &Option<A>)
        ensures
            *r == self@.status_filter_anchor,
    {
        &self.status_filter_anchor
    }
}

} // verus!
