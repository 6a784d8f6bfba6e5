use jwtop::app::{App, DiskSample, TickInput};
use jwtop::disk::DiskInfo;
use jwtop::input::{Column, InputState, KeyCommand, SortDirection};
use jwtop::process::ProcessInfo;
use jwtop::units::MemPrefix;

const MIB: u64 = 1024 * 1024;

fn tick_input(now: u64, cpu: Option<Vec<u64>>, mem_used: u64, disks: Vec<DiskSample>) -> TickInput {
    TickInput { now_millis: now, cpu_percents: cpu, mem_used, processes: Vec::new(), disks }
}

fn disk_sample(name: &str, r: usize, w: usize) -> DiskSample {
    DiskSample { name: name.to_string(), stats: DiskInfo { r_sectors: r, w_sectors: w } }
}

#[test]
fn scenario_one_cycle() {
    // Two cores, 2048 MiB of physical memory.
    let mut app = App::new(2, 2048 * MIB, 0);
    // The memory scale is chosen once, as the gibi prefix.
    assert_eq!(app.mem_prefix, MemPrefix::Giga);
    assert_eq!(app.mem_prefix.prefix(), 'G');
    assert_eq!(app.mem_total, 2000);

    // One cycle: cores at 10% and 90%, 512 MiB used, one NVMe disk.
    app.tick(tick_input(
        1000,
        Some(vec![10_000, 90_000]),
        512 * MIB,
        vec![disk_sample("nvme0n1", 100, 50)],
    ));
    assert_eq!(app.cpu_history[0].latest(), 10_000);
    assert_eq!(app.cpu_history[1].latest(), 90_000);
    // 512 MiB in GiB-equivalent binary units is 0.5: 500 milli-units.
    assert_eq!(app.mem_history.latest(), 500);

    // Next cycle: the cumulative counters moved from (100, 50) to
    // (150, 80); the computed delta is (50, 30) sectors.
    app.tick(tick_input(
        2000,
        Some(vec![20_000, 40_000]),
        512 * MIB,
        vec![disk_sample("nvme0n1", 150, 80)],
    ));
    assert_eq!(app.disks.len(), 1);
    let rec = app.disks.get(0);
    assert_eq!(rec.read_history.latest(), 50);
    assert_eq!(rec.write_history.latest(), 30);
}

#[test]
fn cpu_refresh_waits_for_the_minimum_interval() {
    let mut app = App::new(1, 1024 * MIB, 1000);
    assert!(!app.cpu_refresh_due(1100));
    // Too soon: the CPU window must not move even though a read came.
    app.tick(tick_input(1100, Some(vec![55_000]), 0, Vec::new()));
    assert_eq!(app.cpu_history[0].latest(), 0);
    // Late enough: the sample enters.
    app.tick(tick_input(1300, Some(vec![55_000]), 0, Vec::new()));
    assert_eq!(app.cpu_history[0].latest(), 55_000);
}

#[test]
fn other_metrics_refresh_even_when_cpu_does_not() {
    let mut app = App::new(1, 1024 * MIB, 1000);
    app.tick(tick_input(1050, None, 512 * MIB, vec![disk_sample("sda", 7, 3)]));
    assert_eq!(app.cpu_history[0].latest(), 0);
    assert_eq!(app.mem_history.latest(), 500);
    assert_eq!(app.disks.len(), 1);
}

#[test]
fn virtual_devices_are_filtered_out() {
    let mut app = App::new(1, 1024 * MIB, 0);
    app.tick(tick_input(
        1000,
        None,
        0,
        vec![disk_sample("loop0", 9, 9), disk_sample("sda", 1, 2), disk_sample("sr0", 5, 5)],
    ));
    assert_eq!(app.disks.len(), 1);
    assert_eq!(app.disks.get(0).name, "sda");
}

#[test]
fn process_cpu_is_normalized_by_core_count() {
    let mut app = App::new(4, 1024 * MIB, 0);
    let procs = vec![ProcessInfo {
        pid: 1,
        cpu: 200_000,
        mem: 10,
        name: "busy".to_string(),
        disk_r: 0,
        disk_w: 0,
    }];
    app.tick(TickInput {
        now_millis: 1000,
        cpu_percents: None,
        mem_used: 0,
        processes: procs,
        disks: Vec::new(),
    });
    // 200% over four cores reads as 50%.
    assert_eq!(app.processes.len(), 1);
    assert_eq!(app.processes[0].cpu, 50_000);
}

#[test]
fn quit_command_stops_from_any_state() {
    let mut app = App::new(1, 1024 * MIB, 0);
    assert!(app.running);
    app.handle_command(KeyCommand::EnterSearch);
    app.handle_command(KeyCommand::Quit);
    assert!(!app.running);
    // The interaction state is untouched by quitting.
    assert!(matches!(app.input_state, InputState::ProcessesSearch { .. }));
}

#[test]
fn commands_drive_the_state_machine() {
    let mut app = App::new(1, 1024 * MIB, 0);
    app.handle_command(KeyCommand::SelectColumn(Column::Name));
    match &app.input_state {
        InputState::ProcessesSortSelection { column, direction } => {
            assert_eq!(*column, Column::Name);
            assert_eq!(*direction, SortDirection::Ascending);
        }
        _ => panic!("expected sort mode"),
    }
}
