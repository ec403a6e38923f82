//! User configuration.
//!
//! The refresh interval, color switch and default sort order.  Reading and
//! writing the configuration file is the surrounding program's concern; the
//! engine only defines the shape and the defaults.

use vstd::prelude::*;

verus! {

/// User configuration: refresh interval in milliseconds, color switch, and
/// the default sort column and direction.
#[derive(Clone, Debug)]
pub struct Config {
    pub update_interval: u64,
    pub no_color: bool,
    pub sort_by: String,
    pub sort_ascending: bool,
}

impl Default for Config {
    /// The defaults: a 250 ms refresh, colors on, CPU usage descending.
    fn default() -> (r: Config)
        ensures
            r.update_interval == 250,
            !r.no_color,
            r.sort_by@ == "cpu"@,
            !r.sort_ascending,
    {
        Config {
            update_interval: 250,
            no_color: false,
            sort_by: String::from_str("cpu"),
            sort_ascending: false,
        }
    }
}

} // verus!
