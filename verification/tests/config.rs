use myaku::config::{DaemonConfig, MonitoringConfig, ProcessConfig};

#[test]
fn monitoring_defaults() {
    let m = MonitoringConfig::default();
    assert!(m.show_cpu && m.show_memory && m.show_disk && m.show_network);
    assert!(m.show_gpu);
    assert_eq!(m.history_seconds, 300);
}

#[test]
fn process_config_defaults() {
    let p = ProcessConfig::default();
    assert_eq!(p.sort_by, "cpu");
    assert_eq!(p.sort_direction, "desc");
    assert!(!p.show_threads);
    assert!(p.auto_refresh);
}

#[test]
fn daemon_defaults() {
    let d = DaemonConfig::default();
    assert!(!d.enable);
    assert_eq!(d.metrics_port, 9100);
    assert_eq!(d.history_retention_hours, 24);
}
