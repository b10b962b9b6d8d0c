//! Properties of the todo panel's state machine that hold across messages.
use vstd::prelude::*;
use crate::todo_model::{active, TodoDrag, TodoInfo, CategoryFilter};
use crate::todo_state::{
    TodoStoredStatus,
    transition, last_active, lemma_last_active, drop_target, drop_anchor, prev_month, next_month, flash_advanced, flash_wake, EffectView, Message, Now,
    PanelView,
};

verus! {

/// At most one of the popups of the list is open.
pub open spec fn one_popup<A>(p: PanelView<A>) -> bool {
    let open_count: int = (if p.dispatch_open is Some { 1int } else { 0int })
        + (if p.status_open is Some { 1int } else { 0int })
        + (if p.calendar_open is Some { 1int } else { 0int })
        + (if p.status_filter_open { 1int } else { 0int });
    open_count <= 1
}

/// Opening any of the list's popups (dispatch, status, date picker, status
/// filter) closes the others, so only the one just opened is open.
pub proof fn law_popups_exclude_each_other<A>(p: PanelView<A>, msg: Message, project_id: i64, now: Now, p2: PanelView<A>, e: Seq<EffectView>)
    requires
        transition(p, msg, project_id, now, p2, e),
        msg is DispatchOpen || msg is StatusOpen || msg is CalendarOpen || msg is StatusFilterOpen,
    ensures
        one_popup(p2),
        msg is DispatchOpen ==> p2.dispatch_open is Some,
        msg is StatusOpen ==> p2.status_open is Some,
        msg is CalendarOpen ==> p2.calendar_open is Some,
        msg is StatusFilterOpen ==> p2.status_filter_open,
{
}

/// Picking a state in a card's status popup always closes that popup.
pub proof fn law_status_pick_closes_popup<A>(p: PanelView<A>, idx: usize, target: crate::todo_model::TodoState, project_id: i64, now: Now, p2: PanelView<A>, e: Seq<EffectView>)
    requires
        transition(p, Message::StatusPick(idx, target), project_id, now, p2, e),
    ensures
        p2.status_open is None,
        p2.status_anchor is None,
{
}

/// Picking "pending", "done" or "suspended" in a card's status popup asks
/// the daemon to store exactly that state for that card's task ("pending" is
/// stored as a to-do), and nothing else.
pub proof fn law_status_pick_writes_that_state<A>(p: PanelView<A>, idx: usize, target: crate::todo_model::TodoState, project_id: i64, now: Now, p2: PanelView<A>, e: Seq<EffectView>)
    requires
        transition(p, Message::StatusPick(idx, target), project_id, now, p2, e),
        idx < p.items.len(),
        target != crate::todo_model::TodoState::InProgress,
    ensures
        e.len() == 1,
        target == crate::todo_model::TodoState::Done ==> e[0] == (EffectView::SetStatus { id: p.items[idx as int].id, status: TodoStoredStatus::Done }),
        target == crate::todo_model::TodoState::Suspended ==> e[0] == (EffectView::SetStatus { id: p.items[idx as int].id, status: TodoStoredStatus::Suspended }),
        target == crate::todo_model::TodoState::Pending ==> e[0] == (EffectView::SetStatus { id: p.items[idx as int].id, status: TodoStoredStatus::Todo }),
        p2.items == p.items,
{
}

/// Picking "in progress" in a card's status popup resumes a suspended task
/// (stored as a to-do again); for any other task it writes nothing and opens
/// the agent dispatch popup of that card instead.
pub proof fn law_status_pick_in_progress<A>(p: PanelView<A>, idx: usize, project_id: i64, now: Now, p2: PanelView<A>, e: Seq<EffectView>)
    requires
        transition(p, Message::StatusPick(idx, crate::todo_model::TodoState::InProgress), project_id, now, p2, e),
        idx < p.items.len(),
    ensures
        p.items[idx as int].paused ==> e == seq![EffectView::SetStatus { id: p.items[idx as int].id, status: TodoStoredStatus::Todo }]
            && p2.dispatch_open == p.dispatch_open,
        !p.items[idx as int].paused ==> e.len() == 0 && p2.dispatch_open == Some(idx),
        p2.status_open is None,
        p2.items == p.items,
{
}

/// Switching the category filter resets the search keyword and its draft.
pub proof fn law_category_switch_resets_search<A>(p: PanelView<A>, f: CategoryFilter, project_id: i64, now: Now, p2: PanelView<A>, e: Seq<EffectView>)
    requires
        transition(p, Message::CategorySelect(f), project_id, now, p2, e),
    ensures
        p2.category_selected == f,
        p2.search.len() == 0,
        p2.search_draft.len() == 0,
        p2.items == p.items,
        e.len() == 0,
{
}


/// Pressing a suspended or finished card never starts a drag.
pub proof fn law_only_active_cards_drag<A>(p: PanelView<A>, i: usize, project_id: i64, now: Now, p2: PanelView<A>, e: Seq<EffectView>)
    requires
        transition(p, Message::RowSelect(Some(i)), project_id, now, p2, e),
        i < p.items.len(),
        !active(p.items[i as int]),
    ensures
        p2.drag == p.drag,
        p2.selected_row == Some(i),
{
}

/// A drag only ever moves its drop point onto an active task, or past the
/// active block; it never changes the task picked up.
pub proof fn law_drag_targets_active_block<A>(p: PanelView<A>, over: usize, project_id: i64, now: Now, p2: PanelView<A>, e: Seq<EffectView>)
    requires
        transition(p, Message::DragMove(over), project_id, now, p2, e),
        p.items.len() < usize::MAX,
    ensures
        p2.drag == p.drag || (p2.drag matches Some(d) && p.drag matches Some(d0) && d.source_idx == d0.source_idx
            && (d.target_idx == usize::MAX || (d.target_idx < p.items.len() && active(p.items[d.target_idx as int])))),
        e.len() == 0,
{
    lemma_last_active(p.items);
}

/// Releasing a card that was not moved writes nothing and ends the drag.
pub proof fn law_click_is_no_reorder<A>(p: PanelView<A>, d: TodoDrag, project_id: i64, now: Now, p2: PanelView<A>, e: Seq<EffectView>)
    requires
        p.drag == Some(d),
        d.source_idx == d.target_idx,
        transition(p, Message::DragEnd, project_id, now, p2, e),
    ensures
        e.len() == 0,
        p2.drag is None,
{
}

/// Ticking a task's box twice gives its done flag back, and asks the daemon
/// first for the flipped flag and then for the flag it started with.
pub proof fn law_toggle_twice<A>(
    p: PanelView<A>,
    idx: usize,
    project_id: i64,
    now1: Now,
    now2: Now,
    p1: PanelView<A>,
    e1: Seq<EffectView>,
    p2: PanelView<A>,
    e2: Seq<EffectView>,
)
    requires
        idx < p.items.len(),
        transition(p, Message::Toggle(idx), project_id, now1, p1, e1),
        transition(p1, Message::Toggle(idx), project_id, now2, p2, e2),
    ensures
        p2.items[idx as int].done == p.items[idx as int].done,
        e1 == seq![EffectView::ToggleTodo { id: p.items[idx as int].id, done: !p.items[idx as int].done }],
        e2 == seq![EffectView::ToggleTodo { id: p.items[idx as int].id, done: p.items[idx as int].done }],
        forall|k: int| 0 <= k < p.items.len() && k != idx ==> p2.items[k] == p.items[k],
{
}

/// Paging the date picker back and then forward (or forward and then back)
/// returns to the same month.
pub proof fn law_month_paging_round_trips(v: (i32, u32))
    requires
        1 <= v.1 <= 12,
        i32::MIN < v.0 < i32::MAX,
    ensures
        next_month(prev_month(v)) == v,
        prev_month(next_month(v)) == v,
{
}


/// Paging the panel's date picker forward and then back gives back the same
/// panel and asks for nothing; the month stays within 1 to 12 on the way.
#[verifier::spinoff_prover]
pub proof fn law_next_then_prev_month<A>(
    p: PanelView<A>,
    project_id: i64,
    now1: Now,
    now2: Now,
    p1: PanelView<A>,
    e1: Seq<EffectView>,
    p2: PanelView<A>,
    e2: Seq<EffectView>,
)
    requires
        1 <= p.calendar_view.1 <= 12,
        p.calendar_view.1 == 12 ==> p.calendar_view.0 < i32::MAX,
        transition(p, Message::CalendarNextMonth, project_id, now1, p1, e1),
        transition(p1, Message::CalendarPrevMonth, project_id, now2, p2, e2),
    ensures
        1 <= p1.calendar_view.1 <= 12,
        p2 == p,
        e1.len() == 0,
        e2.len() == 0,
{
    let v1 = next_month(p.calendar_view);
    assert(p1 == PanelView { calendar_view: v1, ..p });
    assert(prev_month(v1) == p.calendar_view);
    assert(p2 == PanelView { calendar_view: prev_month(v1), ..p1 });
}

/// Paging the panel's date picker back and then forward gives back the same
/// panel and asks for nothing; the month stays within 1 to 12 on the way.
#[verifier::spinoff_prover]
pub proof fn law_prev_then_next_month<A>(
    p: PanelView<A>,
    project_id: i64,
    now1: Now,
    now2: Now,
    p1: PanelView<A>,
    e1: Seq<EffectView>,
    p2: PanelView<A>,
    e2: Seq<EffectView>,
)
    requires
        1 <= p.calendar_view.1 <= 12,
        p.calendar_view.1 == 1 ==> p.calendar_view.0 > i32::MIN,
        transition(p, Message::CalendarPrevMonth, project_id, now1, p1, e1),
        transition(p1, Message::CalendarNextMonth, project_id, now2, p2, e2),
    ensures
        1 <= p1.calendar_view.1 <= 12,
        p2 == p,
        e1.len() == 0,
        e2.len() == 0,
{
    let v1 = prev_month(p.calendar_view);
    assert(p1 == PanelView { calendar_view: v1, ..p });
    assert(next_month(v1) == p.calendar_view);
    assert(p2 == PanelView { calendar_view: next_month(v1), ..p1 });
}


/// The highlight of a new task is woken for exactly when it ends: checking
/// it any earlier than the wake delay leaves it on, checking it at the end of
/// the delay ends it, and when no wake is asked for it ends at once.
pub proof fn law_flash_wakes_at_its_end<A>(p: PanelView<A>, mono_ms: u64, check_ms: u64)
    requires
        p.flash is Some,
    ensures
        match flash_wake(p.flash, mono_ms) {
            Some(d) => {
                &&& (check_ms < mono_ms + d ==> flash_advanced(p, check_ms) == p)
                &&& (check_ms == mono_ms + d ==> flash_advanced(p, check_ms).flash is None)
            },
            None => flash_advanced(p, mono_ms).flash is None,
        },
{
}


/// Hovering a finished card puts the drop point at the end of the active
/// block, and releasing there moves the picked task after the last active
/// task (to the front when there is none); a task that already is the last
/// active one stays where it is.
#[verifier::spinoff_prover]
#[verifier::rlimit(40)]
pub proof fn law_drop_on_finished_goes_to_block_end<A>(
    p: PanelView<A>,
    d0: TodoDrag,
    over: usize,
    project_id: i64,
    now: Now,
    p1: PanelView<A>,
    e1: Seq<EffectView>,
    p2: PanelView<A>,
    e2: Seq<EffectView>,
)
    requires
        p.drag == Some(d0),
        over < p.items.len(),
        p.items[over as int].done,
        transition(p, Message::DragMove(over), project_id, now, p1, e1),
        transition(p1, Message::DragEnd, project_id, now, p2, e2),
    ensures
        p1.drag == Some(TodoDrag { source_idx: d0.source_idx, target_idx: usize::MAX }),
        e1.len() == 0,
        p2.drag is None,
        p.items.len() < usize::MAX ==> e2 == if d0.source_idx < p.items.len() && last_active(p.items) != Some(d0.source_idx as int) {
            seq![EffectView::ReorderTodo {
                id: p.items[d0.source_idx as int].id,
                after: match last_active(p.items) {
                    Some(a) => Some(p.items[a].id),
                    None => None,
                },
            }]
        } else {
            Seq::empty()
        },
{
    assert(!active(p.items[over as int]));
    assert(drop_target(p.items, over) == usize::MAX);
    assert(p1.items == p.items && p1.drag == Some(TodoDrag { source_idx: d0.source_idx, target_idx: usize::MAX }));
    if p.items.len() < usize::MAX {
        assert(drop_anchor(p1.items, usize::MAX) == last_active(p.items));
    }
}

} // verus!
