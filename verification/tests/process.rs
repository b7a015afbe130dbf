use myaku::platform::ProcessInfo;
use myaku::process::{
    parse_signal, select_processes, sorted_processes, truncate_name, ProcessList, Signal, SortColumn,
};

fn process(pid: u32, name: &str, cpu: f32, memory: u64, status: &str, user: &str) -> ProcessInfo {
    ProcessInfo {
        pid,
        name: name.into(),
        cpu_bits: cpu.to_bits(),
        memory,
        status: status.into(),
        parent_pid: 1,
        user: user.into(),
    }
}

fn sample_processes() -> Vec<ProcessInfo> {
    vec![
        process(100, "alpha", 50.0, 1024 * 1024 * 100, "Run", "root"),
        process(200, "bravo", 10.0, 1024 * 1024 * 500, "Sleep", "drzzln"),
        process(300, "charlie", 80.0, 1024 * 1024 * 200, "Run", "drzzln"),
    ]
}

#[test]
fn sort_by_cpu_desc() {
    let mut pl = ProcessList::new(SortColumn::Cpu, 20);
    pl.update(sample_processes());
    let visible = pl.visible_processes();
    assert_eq!(visible[0].pid, 300);
    assert_eq!(visible[1].pid, 100);
    assert_eq!(visible[2].pid, 200);
}

#[test]
fn sort_by_name_asc() {
    let mut pl = ProcessList::new(SortColumn::Name, 20);
    pl.sort_ascending = true;
    pl.update(sample_processes());
    let visible = pl.visible_processes();
    assert_eq!(visible[0].name, "alpha");
    assert_eq!(visible[1].name, "bravo");
    assert_eq!(visible[2].name, "charlie");
}

#[test]
fn filter_by_name() {
    let mut pl = ProcessList::new(SortColumn::Cpu, 20);
    pl.update(sample_processes());
    pl.set_filter("bravo".into());
    assert_eq!(pl.filtered_count(), 1);
    assert_eq!(pl.visible_processes()[0].name, "bravo");
}

#[test]
fn filter_by_pid() {
    let mut pl = ProcessList::new(SortColumn::Cpu, 20);
    pl.update(sample_processes());
    pl.set_filter("200".into());
    assert_eq!(pl.filtered_count(), 1);
}

#[test]
fn cycle_sort() {
    let mut pl = ProcessList::new(SortColumn::Cpu, 20);
    pl.cycle_sort();
    assert_eq!(pl.sort_column, SortColumn::Memory);
    pl.cycle_sort();
    assert_eq!(pl.sort_column, SortColumn::Pid);
}

#[test]
fn selection_navigation() {
    let mut pl = ProcessList::new(SortColumn::Cpu, 20);
    pl.update(sample_processes());
    assert_eq!(pl.selected, 0);
    pl.select_next();
    assert_eq!(pl.selected, 1);
    pl.select_prev();
    assert_eq!(pl.selected, 0);
    pl.select_last();
    assert_eq!(pl.selected, 2);
    pl.select_first();
    assert_eq!(pl.selected, 0);
}

#[test]
fn truncate() {
    assert_eq!(truncate_name("hello", 10), "hello");
    assert_eq!(truncate_name("hello world!", 7), "hello..");
    assert_eq!(truncate_name("ab", 2), "ab");
}

#[test]
fn truncate_short_limits() {
    assert_eq!(truncate_name("abcdef", 2), "ab");
    assert_eq!(truncate_name("abcdef", 0), "");
    assert_eq!(truncate_name("abcdef", 3), "a..");
    assert_eq!(truncate_name("héllo", 5), "hé..");
}

#[test]
fn filter_ignores_case_and_clamps_selection() {
    let mut pl = ProcessList::new(SortColumn::Pid, 20);
    pl.update(sample_processes());
    pl.select_last();
    pl.set_filter("CHAR".into());
    assert_eq!(pl.filtered_count(), 1);
    assert_eq!(pl.selected, 0);
    assert_eq!(pl.selected_process().map(|p| p.pid), Some(300));
    pl.set_filter("zzz".into());
    assert_eq!(pl.filtered_count(), 0);
    assert!(pl.selected_process().is_none());
    assert_eq!(pl.total_count(), 3);
}

#[test]
fn sort_ties_keep_original_order() {
    let procs = vec![
        process(1, "x", 5.0, 10, "Run", "a"),
        process(2, "y", 5.0, 10, "Run", "a"),
        process(3, "z", 7.0, 10, "Run", "a"),
    ];
    let mut pl = ProcessList::new(SortColumn::Memory, 20);
    pl.update(procs);
    let pids: Vec<u32> = pl.visible_processes().iter().map(|p| p.pid).collect();
    assert_eq!(pids, vec![1, 2, 3]);
    pl.toggle_sort_direction();
    let pids: Vec<u32> = pl.visible_processes().iter().map(|p| p.pid).collect();
    assert_eq!(pids, vec![1, 2, 3]);
    pl.sort_column = SortColumn::Cpu;
    pl.toggle_sort_direction();
    let pids: Vec<u32> = pl.visible_processes().iter().map(|p| p.pid).collect();
    assert_eq!(pids, vec![3, 1, 2]);
}

#[test]
fn negative_zero_equals_zero_and_negatives_sort_first() {
    let procs = vec![
        process(1, "a", 0.0, 0, "", ""),
        process(2, "b", -0.0, 0, "", ""),
        process(3, "c", -1.5, 0, "", ""),
        process(4, "d", f32::INFINITY, 0, "", ""),
    ];
    let mut pl = ProcessList::new(SortColumn::Cpu, 20);
    pl.sort_ascending = true;
    pl.update(procs);
    let pids: Vec<u32> = pl.visible_processes().iter().map(|p| p.pid).collect();
    assert_eq!(pids, vec![3, 1, 2, 4]);
}

#[test]
fn scrolling_follows_selection() {
    let procs: Vec<ProcessInfo> = (0..10).map(|i| process(i, "p", i as f32, 0, "", "")).collect();
    let mut pl = ProcessList::new(SortColumn::Pid, 3);
    pl.sort_ascending = true;
    pl.update(procs);
    pl.page_down();
    assert_eq!(pl.selected, 3);
    assert_eq!(pl.scroll_offset, 1);
    pl.select_last();
    assert_eq!(pl.selected, 9);
    assert_eq!(pl.scroll_offset, 7);
    assert_eq!(pl.visible_processes().len(), 3);
    assert_eq!(pl.visible_processes()[2].pid, 9);
    pl.page_up();
    assert_eq!(pl.selected, 6);
    assert_eq!(pl.scroll_offset, 6);
    pl.select_first();
    assert_eq!(pl.scroll_offset, 0);
    pl.page_down();
    pl.page_down();
    pl.page_down();
    pl.page_down();
    assert_eq!(pl.selected, 9);
}

#[test]
fn header_marks_sort_column() {
    let mut pl = ProcessList::new(SortColumn::Cpu, 20);
    let expected = format!(
        "{:>7} {:<20} {:>6}{} {:>10}{} {:<6} {}",
        "PID", "NAME", "CPU%", " v", "MEM", "", "STATE", "USER"
    );
    assert_eq!(pl.header_row(), expected);
    pl.cycle_sort();
    pl.cycle_sort();
    pl.toggle_sort_direction();
    let expected = format!(
        "{:>7} {:<20} {:>6}{} {:>10}{} {:<6} {}",
        "PID ^", "NAME", "CPU%", "", "MEM", "", "STATE", "USER"
    );
    assert_eq!(pl.header_row(), expected);
}

#[test]
fn sort_column_words() {
    assert_eq!(SortColumn::from_str("MEM"), SortColumn::Memory);
    assert_eq!(SortColumn::from_str("memory"), SortColumn::Memory);
    assert_eq!(SortColumn::from_str("Pid"), SortColumn::Pid);
    assert_eq!(SortColumn::from_str("name"), SortColumn::Name);
    assert_eq!(SortColumn::from_str("cpu"), SortColumn::Cpu);
    assert_eq!(SortColumn::from_str("whatever"), SortColumn::Cpu);
    assert_eq!(SortColumn::Cpu.label(), "CPU%");
    assert_eq!(SortColumn::Memory.label(), "MEM");
    assert_eq!(SortColumn::Name.next(), SortColumn::Cpu);
}

#[test]
fn sorted_processes_by_query() {
    let asc = sorted_processes(sample_processes(), "memory", true);
    let pids: Vec<u32> = asc.iter().map(|p| p.pid).collect();
    assert_eq!(pids, vec![100, 300, 200]);
    let desc = sorted_processes(sample_processes(), "cpu", false);
    let pids: Vec<u32> = desc.iter().map(|p| p.pid).collect();
    assert_eq!(pids, vec![300, 100, 200]);
    // Labels are not query words: "CPU%" sorts by CPU.
    let by_label = sorted_processes(sample_processes(), "MEM", true);
    let pids: Vec<u32> = by_label.iter().map(|p| p.pid).collect();
    assert_eq!(pids, vec![200, 100, 300]);
}

#[test]
fn sorted_processes_descending_reverses_ties() {
    let procs = vec![process(1, "x", 1.0, 5, "", ""), process(2, "y", 1.0, 5, "", "")];
    let desc = sorted_processes(procs, "pid", false);
    assert_eq!(desc[0].pid, 2);
    let procs = vec![process(1, "x", 1.0, 5, "", ""), process(2, "y", 1.0, 5, "", "")];
    let desc = sorted_processes(procs, "memory", false);
    let pids: Vec<u32> = desc.iter().map(|p| p.pid).collect();
    assert_eq!(pids, vec![2, 1]);
}

#[test]
fn select_processes_filters_sorts_and_limits() {
    let picked = select_processes(sample_processes(), "mem", 2, None);
    let pids: Vec<u32> = picked.iter().map(|p| p.pid).collect();
    assert_eq!(pids, vec![200, 300]);
    let picked = select_processes(sample_processes(), "cpu", 30, Some("A"));
    let pids: Vec<u32> = picked.iter().map(|p| p.pid).collect();
    assert_eq!(pids, vec![300, 100, 200]);
    let picked = select_processes(sample_processes(), "name", 30, Some("LIE"));
    let pids: Vec<u32> = picked.iter().map(|p| p.pid).collect();
    assert_eq!(pids, vec![300]);
    let picked = select_processes(sample_processes(), "pid", 0, None);
    assert!(picked.is_empty());
}

#[test]
fn signal_names() {
    assert_eq!(parse_signal("SIGKILL"), Signal::Kill);
    assert_eq!(parse_signal("kill"), Signal::Kill);
    assert_eq!(parse_signal("9"), Signal::Kill);
    assert_eq!(parse_signal("sigint"), Signal::Interrupt);
    assert_eq!(parse_signal("2"), Signal::Interrupt);
    assert_eq!(parse_signal("SIGTERM"), Signal::Term);
    assert_eq!(parse_signal("hup"), Signal::Term);
}

#[test]
fn title_line_shows_counts_sort_and_filter() {
    let mut pl = ProcessList::new(SortColumn::Cpu, 20);
    pl.update(sample_processes());
    assert_eq!(pl.title_line(), "  Processes (3/3)  Sort: CPU% v  Filter: -");
    pl.set_filter("ar".to_string());
    pl.toggle_sort_direction();
    assert_eq!(pl.title_line(), "  Processes (1/3)  Sort: CPU% ^  Filter: ar");
}

#[test]
fn toggling_twice_restores_view_and_selection() {
    let mut pl = ProcessList::new(SortColumn::Memory, 20);
    pl.update(sample_processes());
    pl.select_next();
    let before: Vec<u32> = pl.visible_processes().iter().map(|p| p.pid).collect();
    let selected = pl.selected_process().map(|p| p.pid);
    pl.toggle_sort_direction();
    pl.toggle_sort_direction();
    let after: Vec<u32> = pl.visible_processes().iter().map(|p| p.pid).collect();
    assert_eq!(before, after);
    assert_eq!(pl.selected_process().map(|p| p.pid), selected);
    assert!(!pl.sort_ascending);
}

#[test]
fn empty_filter_shows_every_process() {
    let mut pl = ProcessList::new(SortColumn::Pid, 20);
    pl.update(sample_processes());
    pl.set_filter("CHAR".to_string());
    assert_eq!(pl.filtered_count(), 1);
    pl.set_filter(String::new());
    assert_eq!(pl.filtered_count(), pl.total_count());
}

#[test]
fn labels_read_back_as_their_columns() {
    for c in [SortColumn::Cpu, SortColumn::Memory, SortColumn::Pid, SortColumn::Name] {
        assert_eq!(SortColumn::from_str(c.label()), c);
    }
}

#[test]
fn signal_names_ignore_ascii_case() {
    assert_eq!(parse_signal("kill"), Signal::Kill);
    assert_eq!(parse_signal("SigInt"), Signal::Interrupt);
    assert_eq!(parse_signal("hup"), Signal::Term);
}

#[test]
fn listing_counts_non_finite_cpu_as_zero() {
    let procs = vec![
        process(1, "nan", f32::NAN, 10, "Run", "a"),
        process(2, "low", 1.0, 10, "Run", "a"),
        process(3, "inf", f32::INFINITY, 10, "Run", "a"),
        process(4, "zero", 0.0, 10, "Run", "a"),
        process(5, "high", 5.0, 10, "Run", "a"),
    ];
    let pids: Vec<u32> = select_processes(procs, "cpu", 10, None).iter().map(|p| p.pid).collect();
    assert_eq!(pids, vec![5, 2, 1, 3, 4]);
}
