//! The interactive monitor's decisions: how each action changes the mode,
//! the filter being typed and the process list, what the event loop must
//! do next, and the status bar text.

use vstd::prelude::*;
use crate::input::{Action, Mode};
use crate::process::{
    ProcessList, filter_applied, moved_down, moved_up, paged_down, paged_up, moved_to_first,
    moved_to_last, cycled_sort, toggled_direction,
};

verus! {

/// `String::pop` removes and returns the last character, or returns `None`
/// for an empty string.
pub assume_specification[ String::pop ](s: &mut String) -> (r: Option<char>)
    ensures
        old(s)@.len() > 0 ==> r == Some(old(s)@.last()) && final(s)@ == old(s)@.drop_last(),
        old(s)@.len() == 0 ==> r.is_none() && final(s)@ == old(s)@,
;

/// What the event loop does after an action.
#[derive(Debug, Clone, Copy, PartialEq, Eq, Structural)]
pub enum Effect {
    /// Leave the application.
    Exit,
    /// Collect fresh metrics and processes, then continue.
    Refresh,
    /// Nothing more to do.
    Continue,
}

/// The interactive state: the current mode, the filter being typed, and
/// the process list.
pub struct UiState {
    /// Current mode.
    pub mode: Mode,
    /// The filter text typed so far.
    pub filter_input: String,
    /// The process list.
    pub proc_list: ProcessList,
}

/// The mode after Tab or Shift+Tab: dashboard and process view swap, the
/// filter mode stays.
pub open spec fn toggled_mode(m: Mode) -> Mode {
    match m {
        Mode::Dashboard => Mode::Process,
        Mode::Process => Mode::Dashboard,
        Mode::Filter => Mode::Filter,
    }
}

/// The mode after Escape: filter input returns to the process view (the
/// filter stays applied), the process view returns to the dashboard.
pub open spec fn back_mode(m: Mode) -> Mode {
    match m {
        Mode::Filter => Mode::Process,
        Mode::Process => Mode::Dashboard,
        Mode::Dashboard => Mode::Dashboard,
    }
}

/// The mode an action leads to.
pub open spec fn next_mode(m: Mode, a: Action) -> Mode {
    match a {
        Action::SwitchDashboard => Mode::Dashboard,
        Action::SwitchProcess => Mode::Process,
        Action::FocusNext | Action::FocusPrev => toggled_mode(m),
        Action::EnterFilter => Mode::Filter,
        Action::Back => back_mode(m),
        Action::Confirm => if m == Mode::Filter { Mode::Process } else { m },
        _ => m,
    }
}

/// The filter text after an action: cleared when filter input starts,
/// extended or shortened by typing while in filter mode.
pub open spec fn next_filter_input(m: Mode, input: Seq<char>, a: Action) -> Seq<char> {
    match a {
        Action::EnterFilter => Seq::empty(),
        Action::Char(c) => if m == Mode::Filter { input.push(c) } else { input },
        Action::Backspace => if m == Mode::Filter && input.len() > 0 { input.drop_last() } else { input },
        _ => input,
    }
}

/// What the event loop does after an action.
pub open spec fn action_effect(a: Action) -> Effect {
    match a {
        Action::Quit => Effect::Exit,
        Action::ForceRefresh => Effect::Refresh,
        _ => Effect::Continue,
    }
}

/// Whether an action applies the typed filter to the process list: typing,
/// erasing and confirming do while in filter mode.
pub open spec fn applies_filter(m: Mode, a: Action) -> bool {
    m == Mode::Filter && match a {
        Action::Confirm | Action::Char(_) | Action::Backspace => true,
        _ => false,
    }
}

/// The interactive loop's transitions, spelled out: the switch actions go
/// to their view from any mode; Tab swaps dashboard and process view;
/// Escape steps back from filter input to the process view and from there
/// to the dashboard; Enter in filter input returns to the process view;
/// every other action keeps the mode. Filter input starts empty, typing
/// appends and Backspace removes the last character, only in filter mode.
/// Only Quit exits and only a forced refresh refreshes.
pub proof fn lemma_transitions(m: Mode, input: Seq<char>, c: char)
    ensures
        next_mode(m, Action::SwitchDashboard) == Mode::Dashboard,
        next_mode(m, Action::SwitchProcess) == Mode::Process,
        next_mode(m, Action::EnterFilter) == Mode::Filter,
        next_mode(Mode::Dashboard, Action::FocusNext) == Mode::Process,
        next_mode(Mode::Dashboard, Action::FocusPrev) == Mode::Process,
        next_mode(Mode::Process, Action::FocusNext) == Mode::Dashboard,
        next_mode(Mode::Process, Action::FocusPrev) == Mode::Dashboard,
        next_mode(Mode::Filter, Action::FocusNext) == Mode::Filter,
        next_mode(Mode::Filter, Action::FocusPrev) == Mode::Filter,
        next_mode(Mode::Filter, Action::Back) == Mode::Process,
        next_mode(Mode::Process, Action::Back) == Mode::Dashboard,
        next_mode(Mode::Dashboard, Action::Back) == Mode::Dashboard,
        next_mode(Mode::Filter, Action::Confirm) == Mode::Process,
        m != Mode::Filter ==> next_mode(m, Action::Confirm) == m,
        next_mode(m, Action::Quit) == m,
        next_mode(m, Action::ForceRefresh) == m,
        next_mode(m, Action::Up) == m,
        next_mode(m, Action::Down) == m,
        next_mode(m, Action::PageUp) == m,
        next_mode(m, Action::PageDown) == m,
        next_mode(m, Action::First) == m,
        next_mode(m, Action::Last) == m,
        next_mode(m, Action::CycleSort) == m,
        next_mode(m, Action::ToggleSortDirection) == m,
        next_mode(m, Action::Char(c)) == m,
        next_mode(m, Action::Backspace) == m,
        next_mode(m, Action::NoAction) == m,
        next_filter_input(m, input, Action::EnterFilter) == Seq::<char>::empty(),
        next_filter_input(Mode::Filter, input, Action::Char(c)) == input.push(c),
        input.len() > 0 ==> next_filter_input(Mode::Filter, input, Action::Backspace) == input.drop_last(),
        input.len() == 0 ==> next_filter_input(Mode::Filter, input, Action::Backspace) == input,
        m != Mode::Filter ==> next_filter_input(m, input, Action::Char(c)) == input
            && next_filter_input(m, input, Action::Backspace) == input,
        next_filter_input(m, input, Action::Back) == input,
        next_filter_input(m, input, Action::Confirm) == input,
        action_effect(Action::Quit) == Effect::Exit,
        action_effect(Action::ForceRefresh) == Effect::Refresh,
        forall|a: Action| a != Action::Quit && a != Action::ForceRefresh ==> action_effect(a) == Effect::Continue,
        applies_filter(m, Action::Confirm) == (m == Mode::Filter),
        applies_filter(m, Action::Char(c)) == (m == Mode::Filter),
        applies_filter(m, Action::Backspace) == (m == Mode::Filter),
        !applies_filter(m, Action::EnterFilter) && !applies_filter(m, Action::Back),
{
}

impl UiState {
    /// Starts in the dashboard with no filter typed.
    pub fn new(proc_list: ProcessList) -> (s: Self)
        ensures
            s.mode == Mode::Dashboard,
            s.filter_input@ == Seq::<char>::empty(),
            s.proc_list == proc_list,
    {
        UiState { mode: Mode::Dashboard, filter_input: String::new(), proc_list }
    }

    /// Applies an action and says what the event loop does next. The mode and
    /// the typed filter change as `next_mode` and `next_filter_input` say;
    /// navigation and sorting act on the process list (up and down only in
    /// the process view); typing, erasing and confirming in filter mode apply
    /// the typed filter.
    pub fn apply_action(&mut self, action: Action) -> (e: Effect)
        requires
            action == Action::PageDown ==> old(self).proc_list.sel() + old(self).proc_list.rows() <= usize::MAX,
            (action == Action::Down && old(self).mode == Mode::Process) || action == Action::PageUp
                || action == Action::Last ==> old(self).proc_list.rows() > 0 || old(self).proc_list.sel() < usize::MAX,
        ensures
            e == action_effect(action),
            final(self).mode == next_mode(old(self).mode, action),
            final(self).filter_input@ == next_filter_input(old(self).mode, old(self).filter_input@, action),
            applies_filter(old(self).mode, action)
                ==> filter_applied(old(self).proc_list, final(self).proc_list, final(self).filter_input@),
            (action == Action::Down && old(self).mode == Mode::Process)
                ==> moved_down(old(self).proc_list, final(self).proc_list),
            (action == Action::Up && old(self).mode == Mode::Process)
                ==> moved_up(old(self).proc_list, final(self).proc_list),
            action == Action::PageDown ==> paged_down(old(self).proc_list, final(self).proc_list),
            action == Action::PageUp ==> paged_up(old(self).proc_list, final(self).proc_list),
            action == Action::First ==> moved_to_first(old(self).proc_list, final(self).proc_list),
            action == Action::Last ==> moved_to_last(old(self).proc_list, final(self).proc_list),
            action == Action::CycleSort ==> cycled_sort(old(self).proc_list, final(self).proc_list),
            action == Action::ToggleSortDirection ==> toggled_direction(old(self).proc_list, final(self).proc_list),
            (action == Action::Down || action == Action::Up) && old(self).mode != Mode::Process
                ==> final(self).proc_list == old(self).proc_list,
            !applies_filter(old(self).mode, action) && match action {
                Action::Down | Action::Up | Action::PageDown | Action::PageUp | Action::First | Action::Last
                | Action::CycleSort | Action::ToggleSortDirection => false,
                _ => true,
            } ==> final(self).proc_list == old(self).proc_list,
    {
        match action {
            Action::Quit => {
                return Effect::Exit;
            },
            Action::SwitchDashboard => {
                self.mode = Mode::Dashboard;
            },
            Action::SwitchProcess => {
                self.mode = Mode::Process;
            },
            Action::ForceRefresh => {
                return Effect::Refresh;
            },
            Action::FocusNext | Action::FocusPrev => {
                self.mode = match self.mode {
                    Mode::Dashboard => Mode::Process,
                    Mode::Process => Mode::Dashboard,
                    Mode::Filter => Mode::Filter,
                };
            },
            Action::Down => {
                if self.mode == Mode::Process {
                    self.proc_list.select_next();
                }
            },
            Action::Up => {
                if self.mode == Mode::Process {
                    self.proc_list.select_prev();
                }
            },
            Action::PageDown => {
                self.proc_list.page_down();
            },
            Action::PageUp => {
                self.proc_list.page_up();
            },
            Action::First => {
                self.proc_list.select_first();
            },
            Action::Last => {
                self.proc_list.select_last();
            },
            Action::CycleSort => {
                self.proc_list.cycle_sort();
            },
            Action::ToggleSortDirection => {
                self.proc_list.toggle_sort_direction();
            },
            Action::EnterFilter => {
                self.mode = Mode::Filter;
                self.filter_input = String::new();
            },
            Action::Back => {
                self.mode = match self.mode {
                    Mode::Filter => Mode::Process,
                    Mode::Process => Mode::Dashboard,
                    Mode::Dashboard => Mode::Dashboard,
                };
            },
            Action::Confirm => {
                if self.mode == Mode::Filter {
                    self.proc_list.set_filter(self.filter_input.clone());
                    self.mode = Mode::Process;
                }
            },
            Action::Char(c) => {
                if self.mode == Mode::Filter {
                    self.filter_input.push(c);
                    self.proc_list.set_filter(self.filter_input.clone());
                }
            },
            Action::Backspace => {
                if self.mode == Mode::Filter {
                    let _ = self.filter_input.pop();
                    self.proc_list.set_filter(self.filter_input.clone());
                }
            },
            Action::NoAction => {},
        }
        Effect::Continue
    }
}

/// Whether a periodic refresh is due: the milliseconds since the last one,
/// taken modulo 2^32, have reached the refresh interval.
pub open spec fn refresh_is_due(elapsed_ms: u128, interval_ms: u32) -> bool {
    elapsed_ms % 0x1_0000_0000 >= interval_ms
}

/// Decides whether a redraw refreshes the metrics first.
pub fn refresh_due(elapsed_ms: u128, refresh_interval_ms: u32) -> (r: bool)
    ensures
        r == refresh_is_due(elapsed_ms, refresh_interval_ms),
{
    let low = (elapsed_ms % 0x1_0000_0000) as u32;
    low >= refresh_interval_ms
}

/// The status bar text for a mode and the filter typed so far.
pub open spec fn status_text(m: Mode, filter: Seq<char>) -> Seq<char> {
    match m {
        Mode::Filter => "  [FILTER] /"@ + filter + "_  | Enter: apply | Esc: cancel"@,
        Mode::Dashboard => "  [DASHBOARD]  q: quit | p: processes | r: refresh | Tab: switch view | hjkl: navigate"@,
        Mode::Process => "  [PROCESS]  q: quit | d: dashboard | jk: navigate | s: sort | /: filter | Esc: back"@,
    }
}

/// Builds the status bar text.
pub fn status_line(mode: Mode, filter_input: &String) -> (r: String)
    ensures
        r@ == status_text(mode, filter_input@),
{
    match mode {
        Mode::Filter => {
            let mut r = "  [FILTER] /".to_owned();
            r.append(filter_input.as_str());
            r.append("_  | Enter: apply | Esc: cancel");
            r
        },
        Mode::Dashboard => {
            "  [DASHBOARD]  q: quit | p: processes | r: refresh | Tab: switch view | hjkl: navigate".to_owned()
        },
        Mode::Process => {
            "  [PROCESS]  q: quit | d: dashboard | jk: navigate | s: sort | /: filter | Esc: back".to_owned()
        },
    }
}

} // verus!
