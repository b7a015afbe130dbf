//! Configuration sections that the monitor's logic reads, with their
//! defaults.

use vstd::prelude::*;

verus! {

/// Which subsystems to monitor.
#[derive(Clone, Debug)]
pub struct MonitoringConfig {
    /// Show CPU usage.
    pub show_cpu: bool,
    /// Show memory usage.
    pub show_memory: bool,
    /// Show disk usage.
    pub show_disk: bool,
    /// Show network activity.
    pub show_network: bool,
    /// Show GPU usage (macOS only).
    pub show_gpu: bool,
    /// How many seconds of history to keep in graphs.
    pub history_seconds: u32,
}

impl Default for MonitoringConfig {
    /// Every subsystem is shown, the GPU included; five minutes of history.
    fn default() -> (r: Self)
        ensures
            r.show_cpu && r.show_memory && r.show_disk && r.show_network,
            r.show_gpu,
            r.history_seconds == 300,
    {
        MonitoringConfig {
            show_cpu: true,
            show_memory: true,
            show_disk: true,
            show_network: true,
            show_gpu: true,
            history_seconds: 300,
        }
    }
}

/// Process list settings.
#[derive(Clone, Debug)]
pub struct ProcessConfig {
    /// Sort column (cpu, memory, pid, name).
    pub sort_by: String,
    /// Sort direction (asc, desc).
    pub sort_direction: String,
    /// Show per-process threads.
    pub show_threads: bool,
    /// Auto-refresh the process list.
    pub auto_refresh: bool,
}

impl Default for ProcessConfig {
    /// Sorted by CPU, descending; no threads; auto-refresh on.
    fn default() -> (r: Self)
        ensures
            r.sort_by@ == "cpu"@,
            r.sort_direction@ == "desc"@,
            !r.show_threads,
            r.auto_refresh,
    {
        ProcessConfig {
            sort_by: "cpu".to_owned(),
            sort_direction: "desc".to_owned(),
            show_threads: false,
            auto_refresh: true,
        }
    }
}

/// Daemon mode configuration.
#[derive(Clone, Debug)]
pub struct DaemonConfig {
    /// Enable metrics collection daemon.
    pub enable: bool,
    /// Port for metrics endpoint.
    pub metrics_port: u16,
    /// Hours of metric history to retain.
    pub history_retention_hours: u32,
}

impl Default for DaemonConfig {
    /// Disabled, port 9100, a day of history.
    fn default() -> (r: Self)
        ensures
            !r.enable,
            r.metrics_port == 9100,
            r.history_retention_hours == 24,
    {
        DaemonConfig { enable: false, metrics_port: 9100, history_retention_hours: 24 }
    }
}

} // verus!
