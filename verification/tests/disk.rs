use jwtop::disk::{is_disk_name, DiskInfo, DiskTable};

#[test]
fn delta_is_the_difference() {
    let prev = DiskInfo { r_sectors: 100, w_sectors: 50 };
    let cur = DiskInfo { r_sectors: 150, w_sectors: 80 };
    let d = cur.delta_from(&prev);
    assert_eq!(d.r_sectors, 50);
    assert_eq!(d.w_sectors, 30);
}

#[test]
fn delta_clamps_counter_regression_to_zero() {
    let prev = DiskInfo { r_sectors: 500, w_sectors: 10 };
    let cur = DiskInfo { r_sectors: 120, w_sectors: 40 };
    let d = cur.delta_from(&prev);
    assert_eq!(d.r_sectors, 0);
    assert_eq!(d.w_sectors, 30);
}

#[test]
fn delta_of_equal_readings_is_zero() {
    let reading = DiskInfo { r_sectors: 42, w_sectors: 42 };
    let d = reading.delta_from(&reading);
    assert_eq!(d.r_sectors, 0);
    assert_eq!(d.w_sectors, 0);
}

#[test]
fn disk_name_allow_list() {
    assert!(is_disk_name("nvme0n1"));
    assert!(is_disk_name("nvme12n34"));
    assert!(is_disk_name("sda"));
    assert!(is_disk_name("sdab"));
    assert!(is_disk_name("hdc"));
    assert!(is_disk_name("disk0"));
    assert!(is_disk_name("disk12"));

    assert!(!is_disk_name("loop0"));
    assert!(!is_disk_name("sr0"));
    assert!(!is_disk_name("nvme0"));
    assert!(!is_disk_name("nvme0n"));
    assert!(!is_disk_name("nvmen1"));
    assert!(!is_disk_name("sd"));
    assert!(!is_disk_name("sdA"));
    assert!(!is_disk_name("sda1"));
    assert!(!is_disk_name("disk"));
    assert!(!is_disk_name("diskx"));
    assert!(!is_disk_name(""));
}

#[test]
fn first_observation_pushes_the_full_cumulative_value() {
    let mut table = DiskTable::new();
    table.record("nvme0n1", DiskInfo { r_sectors: 100, w_sectors: 50 });
    assert_eq!(table.len(), 1);
    let rec = table.get(0);
    assert_eq!(rec.name, "nvme0n1");
    assert_eq!(rec.read_history.latest(), 100);
    assert_eq!(rec.write_history.latest(), 50);
}

#[test]
fn second_reading_pushes_the_delta() {
    let mut table = DiskTable::new();
    table.record("nvme0n1", DiskInfo { r_sectors: 100, w_sectors: 50 });
    table.record("nvme0n1", DiskInfo { r_sectors: 150, w_sectors: 80 });
    assert_eq!(table.len(), 1);
    let rec = table.get(0);
    assert_eq!(rec.read_history.latest(), 50);
    assert_eq!(rec.write_history.latest(), 30);
    assert_eq!(rec.prev.r_sectors, 150);
    assert_eq!(rec.prev.w_sectors, 80);
}

#[test]
fn records_stay_ordered_by_name() {
    let mut table = DiskTable::new();
    table.record("sdb", DiskInfo { r_sectors: 1, w_sectors: 1 });
    table.record("nvme0n1", DiskInfo { r_sectors: 2, w_sectors: 2 });
    table.record("sda", DiskInfo { r_sectors: 3, w_sectors: 3 });
    assert_eq!(table.len(), 3);
    assert_eq!(table.get(0).name, "nvme0n1");
    assert_eq!(table.get(1).name, "sda");
    assert_eq!(table.get(2).name, "sdb");
}

#[test]
fn histories_keep_their_fixed_length() {
    let mut table = DiskTable::new();
    for i in 0..100usize {
        table.record("sda", DiskInfo { r_sectors: i * 10, w_sectors: i * 5 });
    }
    assert_eq!(table.len(), 1);
    let rec = table.get(0);
    assert_eq!(rec.read_history.len(), jwtop::HISTORY_LEN);
    assert_eq!(rec.read_history.latest(), 10);
    assert_eq!(rec.write_history.latest(), 5);
}
