use myaku::metrics::disk::DiskMetrics;
use myaku::metrics::memory::{MemoryMetrics, UsageSample};
use myaku::metrics::network::NetworkMetrics;
use myaku::metrics::uptime_display;
use myaku::platform::{DiskInfo, MemoryInfo, NetworkInfo};
use myaku::text::format_bytes;

/// The percentage a usage reading stands for, as the monitor shows it.
fn percent(sample: Option<UsageSample>) -> f32 {
    match sample {
        Some(s) if s.total > 0 => (s.used as f64 / s.total as f64 * 100.0) as f32,
        _ => 0.0,
    }
}

fn sample_memory() -> MemoryInfo {
    MemoryInfo {
        total: 16 * 1024 * 1024 * 1024,
        used: 8 * 1024 * 1024 * 1024,
        available: 8 * 1024 * 1024 * 1024,
        swap_total: 4 * 1024 * 1024 * 1024,
        swap_used: 1024 * 1024 * 1024,
    }
}

#[test]
fn memory_initial_state() {
    let mem = MemoryMetrics::new(60);
    assert!((percent(mem.ram_history.latest()) - 0.0).abs() < f32::EPSILON);
    assert!((percent(mem.swap_history.latest()) - 0.0).abs() < f32::EPSILON);
}

#[test]
fn update_calculates_percentages() {
    let mut mem = MemoryMetrics::new(60);
    mem.update(&sample_memory());
    assert!((percent(mem.ram_history.latest()) - 50.0).abs() < 0.1);
    assert!((percent(mem.swap_history.latest()) - 25.0).abs() < 0.1);
}

#[test]
fn display_strings() {
    let mut mem = MemoryMetrics::new(60);
    mem.update(&sample_memory());
    assert_eq!(mem.total_ram_display(), "16.0 GB");
    assert_eq!(mem.used_ram_display(), "8.0 GB");
    assert_eq!(mem.total_swap_display(), "4.0 GB");
    assert_eq!(mem.used_swap_display(), "1.0 GB");
}

#[test]
fn memory_update_records_snapshot() {
    let mut mem = MemoryMetrics::new(2);
    let info = sample_memory();
    mem.update(&info);
    mem.update(&info);
    mem.update(&MemoryInfo { total: 10, used: 3, available: 7, swap_total: 0, swap_used: 0 });
    assert_eq!(mem.ram_history.len(), 2);
    assert_eq!(mem.ram_history.latest(), Some(UsageSample { used: 3, total: 10 }));
    assert_eq!(mem.latest.available, 7);
    assert!((percent(mem.swap_history.latest()) - 0.0).abs() < f32::EPSILON);
}

#[test]
fn format_bytes_units() {
    assert_eq!(format_bytes(0), "0 B");
    assert_eq!(format_bytes(500), "500 B");
    assert_eq!(format_bytes(1024), "1.0 KB");
    assert_eq!(format_bytes(1024 * 1024), "1.0 MB");
    assert_eq!(format_bytes(1024 * 1024 * 1024), "1.0 GB");
    assert_eq!(format_bytes(1024 * 1024 * 1024 * 1024), "1.0 TB");
}

#[test]
fn format_bytes_rounds_to_tenths() {
    assert_eq!(format_bytes(1023), "1023 B");
    assert_eq!(format_bytes(1536), "1.5 KB");
    assert_eq!(format_bytes(1024 * 1024 - 1), "1024.0 KB");
    assert_eq!(format_bytes(5 * 1024 * 1024 * 1024 / 2), "2.5 GB");
    assert_eq!(format_bytes(u64::MAX), "16777216.0 TB");
}

/// The reference: the unit chosen by the byte count, then the quotient as a
/// double written with one decimal place.
fn float_reference(bytes: u64) -> String {
    const KB: u64 = 1024;
    const MB: u64 = KB * 1024;
    const GB: u64 = MB * 1024;
    const TB: u64 = GB * 1024;
    if bytes >= TB {
        format!("{:.1} TB", bytes as f64 / TB as f64)
    } else if bytes >= GB {
        format!("{:.1} GB", bytes as f64 / GB as f64)
    } else if bytes >= MB {
        format!("{:.1} MB", bytes as f64 / MB as f64)
    } else if bytes >= KB {
        format!("{:.1} KB", bytes as f64 / KB as f64)
    } else {
        format!("{bytes} B")
    }
}

#[test]
fn format_bytes_agrees_with_float_formatting() {
    let mut values: Vec<u64> = vec![0, 1, 1023, 1024, 1025, 1126, 1075, 1076, 1177, 1178, 2047, 2048];
    // Exact halfway cases between tenths, for each unit.
    for k in 1u32..=4 {
        let unit = 1u64 << (10 * k);
        for t in 10u64..60 {
            let half = unit / 20;
            values.push(t * unit / 10 + half);
            values.push(t * unit / 10 + half - 1);
            values.push(t * unit / 10 + half + 1);
        }
    }
    // Large values that do not fit a double exactly.
    for shift in 53u32..64 {
        let base = 1u64 << shift;
        for d in [0u64, 1, 2, 3, 511, 512, 513, 1023, 1024, 1025] {
            values.push(base + d);
            values.push(base.wrapping_sub(d).max(1));
        }
    }
    values.push(u64::MAX);
    values.push(u64::MAX - 1024);
    let mut x: u64 = 0x9e37_79b9_7f4a_7c15;
    for _ in 0..20000 {
        x ^= x << 13;
        x ^= x >> 7;
        x ^= x << 17;
        values.push(x >> (x % 64));
    }
    for v in values {
        assert_eq!(format_bytes(v), float_reference(v), "bytes = {v}");
    }
}

#[test]
fn uptime_format_seconds() {
    assert_eq!(uptime_display(45), "0m 45s");
}

#[test]
fn uptime_format_hours() {
    assert_eq!(uptime_display(3661), "1h 1m 1s");
}

#[test]
fn uptime_format_days() {
    assert_eq!(uptime_display(90061), "1d 1h 1m");
}

#[test]
fn uptime_format_edges() {
    assert_eq!(uptime_display(0), "0m 0s");
    assert_eq!(uptime_display(3600), "1h 0m 0s");
    assert_eq!(uptime_display(86400), "1d 0h 0m");
    assert_eq!(uptime_display(86399), "23h 59m 59s");
}

fn sample_disks() -> Vec<DiskInfo> {
    vec![
        DiskInfo {
            name: "disk0s1".into(),
            mount_point: "/".into(),
            fs_type: "apfs".into(),
            total: 500 * 1024 * 1024 * 1024,
            used: 250 * 1024 * 1024 * 1024,
            available: 250 * 1024 * 1024 * 1024,
        },
        DiskInfo {
            name: "disk1s1".into(),
            mount_point: "/Volumes/Data".into(),
            fs_type: "apfs".into(),
            total: 1000 * 1024 * 1024 * 1024,
            used: 100 * 1024 * 1024 * 1024,
            available: 900 * 1024 * 1024 * 1024,
        },
    ]
}

#[test]
fn initial_empty() {
    let disk = DiskMetrics::new(60);
    assert!(disk.mounts.is_empty());
}

#[test]
fn update_creates_mounts() {
    let mut disk = DiskMetrics::new(60);
    disk.update(&sample_disks());
    assert_eq!(disk.mounts.len(), 2);
    assert!((percent(disk.mounts[0].usage_history.latest()) - 50.0).abs() < 0.1);
}

#[test]
fn update_tracks_existing() {
    let mut disk = DiskMetrics::new(60);
    disk.update(&sample_disks());
    disk.update(&sample_disks());
    assert_eq!(disk.mounts[0].usage_history.len(), 2);
}

#[test]
fn removed_mounts_cleaned_up() {
    let mut disk = DiskMetrics::new(60);
    disk.update(&sample_disks());
    assert_eq!(disk.mounts.len(), 2);
    disk.update(&sample_disks()[..1]);
    assert_eq!(disk.mounts.len(), 1);
    assert_eq!(disk.mounts[0].mount_point, "/");
}

#[test]
fn new_mounts_come_after_known_ones() {
    let mut disk = DiskMetrics::new(60);
    let disks = sample_disks();
    disk.update(&disks[1..]);
    disk.update(&disks);
    assert_eq!(disk.mounts[0].mount_point, "/Volumes/Data");
    assert_eq!(disk.mounts[1].mount_point, "/");
    assert_eq!(disk.mounts[0].usage_history.len(), 2);
    assert_eq!(disk.mounts[1].usage_history.len(), 1);
    assert_eq!(disk.mounts[1].total_display(), "500.0 GB");
    assert_eq!(disk.mounts[1].used_display(), "250.0 GB");
    assert_eq!(disk.mounts[0].available_display(), "900.0 GB");
}

#[test]
fn repeated_mount_in_one_snapshot_records_twice() {
    let mut disk = DiskMetrics::new(60);
    let mut disks = sample_disks();
    let mut again = disks[0].clone();
    again.used = 1;
    disks.push(again);
    disk.update(&disks);
    assert_eq!(disk.mounts.len(), 2);
    assert_eq!(disk.mounts[0].usage_history.len(), 2);
    assert_eq!(disk.mounts[0].used, 1);
}

fn sample_net_initial() -> Vec<NetworkInfo> {
    vec![
        NetworkInfo { interface: "en0".into(), rx_bytes: 1_000_000, tx_bytes: 500_000 },
        NetworkInfo { interface: "lo0".into(), rx_bytes: 100, tx_bytes: 100 },
    ]
}

fn sample_net_updated() -> Vec<NetworkInfo> {
    vec![
        NetworkInfo { interface: "en0".into(), rx_bytes: 2_000_000, tx_bytes: 600_000 },
        NetworkInfo { interface: "lo0".into(), rx_bytes: 200, tx_bytes: 200 },
    ]
}

#[test]
fn network_initial_state() {
    let net = NetworkMetrics::new(60);
    assert!(net.interfaces.is_empty());
}

#[test]
fn first_update_creates_interfaces() {
    let mut net = NetworkMetrics::new(60);
    net.update(&sample_net_initial());
    assert_eq!(net.interfaces.len(), 2);
    assert!((net.interfaces[0].current_rx() as f32 - 0.0).abs() < f32::EPSILON);
}

#[test]
fn second_update_computes_delta() {
    let mut net = NetworkMetrics::new(60);
    net.update(&sample_net_initial());
    net.update(&sample_net_updated());
    assert!((net.interfaces[0].current_rx() as f32 - 1_000_000.0).abs() < 1.0);
    assert!((net.interfaces[0].current_tx() as f32 - 100_000.0).abs() < 1.0);
}

#[test]
fn counter_reset_gives_zero_delta() {
    let mut net = NetworkMetrics::new(60);
    net.update(&sample_net_updated());
    net.update(&sample_net_initial());
    assert_eq!(net.interfaces[0].current_rx(), 0);
    assert_eq!(net.interfaces[1].current_tx(), 0);
    assert_eq!(net.interfaces[0].total_rx, 1_000_000);
    net.update(&sample_net_updated());
    assert_eq!(net.interfaces[0].current_rx(), 1_000_000);
    assert_eq!(net.interfaces[1].current_rx(), 100);
    assert_eq!(net.interfaces[0].rx_history.values(), vec![0, 1_000_000]);
}

#[test]
fn interfaces_are_never_dropped() {
    let mut net = NetworkMetrics::new(60);
    net.update(&sample_net_initial());
    net.update(&sample_net_initial()[1..]);
    assert_eq!(net.interfaces.len(), 2);
    assert_eq!(net.interfaces[0].name, "en0");
    assert_eq!(net.interfaces[1].name, "lo0");
}

#[test]
fn new_interfaces_follow_known_ones_in_snapshot_order() {
    let mut net = NetworkMetrics::new(60);
    net.update(&sample_net_initial()[1..]);
    let mut snapshot = sample_net_updated();
    snapshot.push(NetworkInfo { interface: "utun0".into(), rx_bytes: 7, tx_bytes: 8 });
    net.update(&snapshot);
    let names: Vec<&str> = net.interfaces.iter().map(|i| i.name.as_str()).collect();
    assert_eq!(names, vec!["lo0", "en0", "utun0"]);
    assert_eq!(net.interfaces[0].rx_history.values(), vec![100]);
    assert_eq!(net.interfaces[0].tx_history.values(), vec![100]);
    assert!(net.interfaces[1].rx_history.values().is_empty());
    assert_eq!(net.interfaces[2].total_rx, 7);
}

#[test]
fn trackers_hand_out_their_entries() {
    let mut net = NetworkMetrics::new(60);
    net.update(&sample_net_initial());
    net.update(&sample_net_updated());
    assert_eq!(net.interface_count(), 2);
    assert_eq!(net.interface(0).name, "en0");
    assert_eq!(net.interface(0).current_rx(), 1_000_000);
    assert_eq!(net.interface(1).current_tx(), 100);
    let mut disk = DiskMetrics::new(60);
    disk.update(&sample_disks());
    assert_eq!(disk.mount_count(), 2);
    assert_eq!(disk.mount(1).mount_point, "/Volumes/Data");
    assert_eq!(disk.mount(1).total_display(), "1000.0 GB");
}
