//! Plain snapshots of system state, as read from the operating system.

use vstd::prelude::*;

verus! {

/// Memory usage information.
#[derive(Debug, Clone, Copy)]
pub struct MemoryInfo {
    /// Total physical memory in bytes.
    pub total: u64,
    /// Used memory in bytes.
    pub used: u64,
    /// Available memory in bytes.
    pub available: u64,
    /// Total swap in bytes.
    pub swap_total: u64,
    /// Used swap in bytes.
    pub swap_used: u64,
}

/// Disk usage information.
#[derive(Debug, Clone)]
pub struct DiskInfo {
    /// Disk name / device identifier.
    pub name: String,
    /// Mount point.
    pub mount_point: String,
    /// File system type (e.g. "apfs", "ext4").
    pub fs_type: String,
    /// Total space in bytes.
    pub total: u64,
    /// Used space in bytes.
    pub used: u64,
    /// Available space in bytes.
    pub available: u64,
}

/// Network interface information.
#[derive(Debug, Clone)]
pub struct NetworkInfo {
    /// Interface name.
    pub interface: String,
    /// Total bytes received (cumulative).
    pub rx_bytes: u64,
    /// Total bytes transmitted (cumulative).
    pub tx_bytes: u64,
}

/// Information about a running process.
#[derive(Debug, Clone)]
pub struct ProcessInfo {
    /// Process ID.
    pub pid: u32,
    /// Process name.
    pub name: String,
    /// CPU usage percentage, as the bit pattern of an IEEE-754 single
    /// precision number (`f32::to_bits`).
    pub cpu_bits: u32,
    /// Memory usage in bytes.
    pub memory: u64,
    /// Process status (running, sleeping, etc.).
    pub status: String,
    /// Parent process ID (0 if unknown).
    pub parent_pid: u32,
    /// User who owns the process.
    pub user: String,
}

} // verus!
