use jwtop::input::{Column, InputState, KeyCommand, SortDirection};
use jwtop::process::{order_processes, ProcessInfo};

fn proc(pid: u64, name: &str, cpu: u64, mem: u64, disk_r: u64, disk_w: u64) -> ProcessInfo {
    ProcessInfo { pid, cpu, mem, name: name.to_string(), disk_r, disk_w }
}

fn pids(list: &[ProcessInfo]) -> Vec<u64> {
    list.iter().map(|p| p.pid).collect()
}

#[test]
fn default_sort_shows_most_expensive_cpu_first() {
    // Two processes at 5.0% and 95.0%, sorted by the default Cpu/Descending.
    let list = vec![proc(1, "one", 5_000, 0, 0, 0), proc(2, "two", 95_000, 0, 0, 0)];
    let ordered = order_processes(list, &InputState::default());
    assert_eq!(pids(&ordered), vec![2, 1]);
}

#[test]
fn pid_sorts_ascending_by_default() {
    let list = vec![
        proc(30, "c", 1, 0, 0, 0),
        proc(10, "a", 2, 0, 0, 0),
        proc(20, "b", 3, 0, 0, 0),
    ];
    let state = InputState::ProcessesSortSelection {
        column: Column::Pid,
        direction: SortDirection::Ascending,
    };
    assert_eq!(pids(&order_processes(list, &state)), vec![10, 20, 30]);
}

#[test]
fn name_sort_ignores_case() {
    let list = vec![
        proc(1, "gamma", 0, 0, 0, 0),
        proc(2, "Beta", 0, 0, 0, 0),
        proc(3, "alpha", 0, 0, 0, 0),
    ];
    let state = InputState::ProcessesSortSelection {
        column: Column::Name,
        direction: SortDirection::Ascending,
    };
    // Case-folded order: alpha, Beta, gamma — not the raw byte order that
    // would put the capital first.
    assert_eq!(pids(&order_processes(list, &state)), vec![3, 2, 1]);
}

#[test]
fn descending_reverses_the_order() {
    let list = vec![
        proc(1, "a", 0, 10, 0, 0),
        proc(2, "b", 0, 30, 0, 0),
        proc(3, "c", 0, 20, 0, 0),
    ];
    let state = InputState::ProcessesSortSelection {
        column: Column::Memory,
        direction: SortDirection::Descending,
    };
    assert_eq!(pids(&order_processes(list, &state)), vec![2, 3, 1]);
}

#[test]
fn ordering_twice_gives_the_same_sequence() {
    let list = vec![
        proc(4, "d", 7, 1, 0, 0),
        proc(1, "a", 7, 2, 0, 0),
        proc(3, "c", 2, 3, 0, 0),
        proc(2, "b", 9, 4, 0, 0),
    ];
    let state = InputState::default();
    let once = order_processes(list, &state);
    let twice = order_processes(once.clone(), &state);
    assert_eq!(pids(&once), pids(&twice));
    let mems: Vec<u64> = once.iter().map(|p| p.mem).collect();
    let mems2: Vec<u64> = twice.iter().map(|p| p.mem).collect();
    assert_eq!(mems, mems2);
}

#[test]
fn search_ranks_matches_before_non_matches() {
    let list = vec![
        proc(1, "systemd", 0, 0, 0, 0),
        proc(2, "bash", 0, 0, 0, 0),
        proc(3, "cargo", 0, 0, 0, 0),
    ];
    let state = InputState::default()
        .apply(KeyCommand::EnterSearch)
        .apply(KeyCommand::Char('s'))
        .apply(KeyCommand::Char('h'));
    let ordered = order_processes(list, &state);
    // Only "bash" contains the subsequence "sh"; it must come first.
    assert_eq!(ordered[0].pid, 2);
}

#[test]
fn empty_search_keeps_the_incoming_order() {
    let list = vec![
        proc(9, "zsh", 0, 0, 0, 0),
        proc(7, "awk", 0, 0, 0, 0),
        proc(8, "sed", 0, 0, 0, 0),
    ];
    let state = InputState::default().apply(KeyCommand::EnterSearch);
    // Empty text matches every name with equal score, so nothing moves.
    assert_eq!(pids(&order_processes(list, &state)), vec![9, 7, 8]);
}

#[test]
fn ordering_an_empty_list_gives_an_empty_list() {
    let ordered = order_processes(Vec::new(), &InputState::default());
    assert!(ordered.is_empty());
}

#[test]
fn widest_pid_renders_in_full() {
    let p = proc(u64::MAX, "x", 0, 0, 0, 0);
    assert_eq!(Column::Pid.extract_data_as_string(&p), "18446744073709551615");
}

#[test]
fn column_cell_texts() {
    let p = proc(42, "cargo", 5_000, 1536, 0, 2048 * 1024 * 1024);
    assert_eq!(Column::Pid.extract_data_as_string(&p), "42");
    assert_eq!(Column::Name.extract_data_as_string(&p), "cargo");
    assert_eq!(Column::Cpu.extract_data_as_string(&p), "5.0%");
    assert_eq!(Column::Memory.extract_data_as_string(&p), "1.5K");
    assert_eq!(Column::DiskRead.extract_data_as_string(&p), "0.0B");
    assert_eq!(Column::DiskWrite.extract_data_as_string(&p), "2.0G");
}
