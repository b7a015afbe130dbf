//! Myaku: the verified core of a system monitor.
//!
//! Metric history buffers, usage bookkeeping per mount and interface,
//! process list ordering and filtering, keyboard mapping and the text
//! formatting that the dashboard shows.

pub mod text;
pub mod ring_buffer;
pub mod series;
pub mod platform;
pub mod process;
pub mod config;
pub mod input;
pub mod metrics;
pub mod order;
pub mod ui;
