//! The system snapshot and process hierarchy engine of a terminal system
//! monitor.
//!
//! Each refresh tick, the surrounding program collects raw operating-system
//! data — a flat process table, cumulative network counters, probe text for
//! batteries and connections — and hands it to this library as plain values.
//! The library derives instantaneous rates from the counters, rebuilds a
//! safe, depth-annotated process tree from the possibly inconsistent
//! parent-pointer table (or a filtered, stably sorted flat list), maintains
//! fixed-size rolling histories for charting, and parses the loosely
//! structured probe text into typed records.  Every function here carries a
//! contract verified by Verus; collection, rendering and key dispatch stay
//! outside.

mod app;
mod battery;
mod config;
mod connection;
mod history;
mod network;
mod process;
mod text;
mod tree;
mod util;

pub use app::{App, TickInput};
pub use battery::{parse_time_str, BatteryData, BatteryInfo, BatteryState};
pub use config::Config;
pub use connection::{format_macos_addr, parse_ss_process_info, ConnectionData, ConnectionInfo};
pub use history::HistoryBuffer;
pub use network::{counter_delta, IfaceSample, NetworkData, NetworkInterface};
pub use process::{ProcSample, ProcessData, ProcessInfo, SortColumn};
pub use text::{parse_u32, parse_u64, trim_str};
pub use tree::build_process_tree;
pub use util::{
    find_matches, format_state, format_status, parse_meminfo, parse_meminfo_value, truncate_addr,
    truncate_string,
};
