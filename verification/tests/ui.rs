use myaku::input::{Action, Mode};
use myaku::platform::ProcessInfo;
use myaku::process::{ProcessList, SortColumn};
use myaku::ui::{refresh_due, status_line, Effect, UiState};

fn process(pid: u32, name: &str) -> ProcessInfo {
    ProcessInfo {
        pid,
        name: name.into(),
        cpu_bits: (pid as f32).to_bits(),
        memory: 0,
        status: "Run".into(),
        parent_pid: 1,
        user: "root".into(),
    }
}

fn state() -> UiState {
    let mut pl = ProcessList::new(SortColumn::Cpu, 30);
    pl.update(vec![process(1, "alpha"), process(2, "bravo"), process(3, "charlie")]);
    UiState::new(pl)
}

#[test]
fn quit_and_refresh_effects() {
    let mut s = state();
    assert_eq!(s.apply_action(Action::ForceRefresh), Effect::Refresh);
    assert_eq!(s.apply_action(Action::NoAction), Effect::Continue);
    assert_eq!(s.apply_action(Action::Quit), Effect::Exit);
}

#[test]
fn tab_toggles_views_and_escape_goes_back() {
    let mut s = state();
    s.apply_action(Action::FocusNext);
    assert_eq!(s.mode, Mode::Process);
    s.apply_action(Action::FocusPrev);
    assert_eq!(s.mode, Mode::Dashboard);
    s.apply_action(Action::SwitchProcess);
    s.apply_action(Action::Back);
    assert_eq!(s.mode, Mode::Dashboard);
    s.apply_action(Action::Back);
    assert_eq!(s.mode, Mode::Dashboard);
}

#[test]
fn typing_a_filter_applies_it() {
    let mut s = state();
    s.apply_action(Action::SwitchProcess);
    s.apply_action(Action::EnterFilter);
    assert_eq!(s.mode, Mode::Filter);
    s.apply_action(Action::Char('b'));
    s.apply_action(Action::Char('r'));
    assert_eq!(s.filter_input, "br");
    assert_eq!(s.proc_list.filtered_count(), 1);
    s.apply_action(Action::Backspace);
    s.apply_action(Action::Backspace);
    s.apply_action(Action::Backspace);
    assert_eq!(s.filter_input, "");
    assert_eq!(s.proc_list.filtered_count(), 3);
    s.apply_action(Action::Char('h'));
    s.apply_action(Action::FocusNext);
    assert_eq!(s.mode, Mode::Filter);
    s.apply_action(Action::Back);
    assert_eq!(s.mode, Mode::Process);
    assert_eq!(s.proc_list.filter, "h");
    assert_eq!(s.proc_list.filtered_count(), 2);
}

#[test]
fn confirm_applies_and_returns_to_process_view() {
    let mut s = state();
    s.apply_action(Action::EnterFilter);
    s.filter_input = "alp".into();
    s.apply_action(Action::Confirm);
    assert_eq!(s.mode, Mode::Process);
    assert_eq!(s.proc_list.filter, "alp");
    assert_eq!(s.proc_list.filtered_count(), 1);
}

#[test]
fn navigation_only_in_process_view() {
    let mut s = state();
    s.apply_action(Action::Down);
    assert_eq!(s.proc_list.selected, 0);
    s.apply_action(Action::SwitchProcess);
    s.apply_action(Action::Down);
    s.apply_action(Action::Down);
    s.apply_action(Action::Down);
    assert_eq!(s.proc_list.selected, 2);
    s.apply_action(Action::Up);
    assert_eq!(s.proc_list.selected, 1);
    s.apply_action(Action::First);
    assert_eq!(s.proc_list.selected, 0);
    s.apply_action(Action::Last);
    assert_eq!(s.proc_list.selected, 2);
    s.apply_action(Action::CycleSort);
    assert_eq!(s.proc_list.sort_column, SortColumn::Memory);
    s.apply_action(Action::ToggleSortDirection);
    assert!(s.proc_list.sort_ascending);
}

#[test]
fn status_lines() {
    assert_eq!(
        status_line(Mode::Filter, &"fire".to_string()),
        "  [FILTER] /fire_  | Enter: apply | Esc: cancel"
    );
    assert_eq!(
        status_line(Mode::Dashboard, &String::new()),
        "  [DASHBOARD]  q: quit | p: processes | r: refresh | Tab: switch view | hjkl: navigate"
    );
    assert_eq!(
        status_line(Mode::Process, &String::new()),
        "  [PROCESS]  q: quit | d: dashboard | jk: navigate | s: sort | /: filter | Esc: back"
    );
}

#[test]
fn refresh_timing() {
    assert!(!refresh_due(999, 1000));
    assert!(refresh_due(1000, 1000));
    assert!(refresh_due(5000, 1000));
    assert!(!refresh_due(1u128 << 32, 1000));
}

fn many() -> UiState {
    let mut pl = ProcessList::new(SortColumn::Pid, 3);
    pl.update((1..=10).map(|i| process(i, "p")).collect());
    pl.sort_ascending = true;
    pl.toggle_sort_direction();
    pl.toggle_sort_direction();
    UiState::new(pl)
}

#[test]
fn paging_moves_selection_and_scroll() {
    let mut s = many();
    s.apply_action(Action::PageDown);
    assert_eq!(s.proc_list.selected, 3);
    assert_eq!(s.proc_list.scroll_offset, 1);
    s.apply_action(Action::Last);
    assert_eq!(s.proc_list.selected, 9);
    assert_eq!(s.proc_list.scroll_offset, 7);
    s.apply_action(Action::PageDown);
    assert_eq!(s.proc_list.selected, 9);
    s.apply_action(Action::PageUp);
    assert_eq!(s.proc_list.selected, 6);
    assert_eq!(s.proc_list.scroll_offset, 6);
    s.apply_action(Action::First);
    assert_eq!(s.proc_list.selected, 0);
    assert_eq!(s.proc_list.scroll_offset, 0);
}

#[test]
fn sort_actions_change_one_setting_each() {
    let mut s = many();
    s.apply_action(Action::CycleSort);
    assert_eq!(s.proc_list.sort_column, SortColumn::Name);
    assert!(s.proc_list.sort_ascending);
    s.apply_action(Action::ToggleSortDirection);
    assert_eq!(s.proc_list.sort_column, SortColumn::Name);
    assert!(!s.proc_list.sort_ascending);
}
