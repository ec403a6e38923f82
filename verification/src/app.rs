//! The snapshot orchestrator.
//!
//! One `App` value owns every piece of cross-tick state: the
//! previous-counter network data, the four rolling history buffers, and the
//! view settings (filter text, tree flag, sort column and direction,
//! selection and tab).  Each tick the surrounding program collects fresh
//! flat data and hands it over as plain values; `update` then recomputes
//! rates, histories and the process display list in one step.  The view
//! controls are small total functions with exact contracts.

use vstd::prelude::*;

use crate::history::{HistoryBuffer, HISTORY_SIZE};
use crate::network::{IfaceSample, NetworkData, sample_views, sum_rx, sum_tx, sum_delta_rx,
    sum_delta_tx, per_second, active_ifaces};
use crate::process::{ProcSample, ProcessData, SortColumn, record_views, view_spec, count_running};
use crate::text::{dec_digits, push_dec, u64_to_dec, pop_char, push_char};

verus! {

/// The fresh flat data for one tick, as plain values: the process table,
/// total memory in bytes, per-interface cumulative counters, the measured
/// milliseconds since the previous tick (zero on the very first), the CPU
/// and memory usage samples in hundredths of a percent, and the system
/// uptime in seconds.
pub struct TickInput {
    pub processes: Vec<ProcSample>,
    pub total_memory: u64,
    pub net: Vec<IfaceSample>,
    pub elapsed_ms: u64,
    pub cpu_usage: u64,
    pub mem_used: u64,
    pub uptime: u64,
}

/// The number of tabs the selector cycles through.
pub const TAB_COUNT: usize = 4;

/// The dashboard state: per-tick data, cross-tick history, and the view
/// settings.
pub struct App {
    pub process_data: ProcessData,
    pub network_data: NetworkData,
    pub cpu_history: HistoryBuffer,
    pub mem_history: HistoryBuffer,
    pub net_up_history: HistoryBuffer,
    pub net_down_history: HistoryBuffer,
    pub selected_tab: usize,
    pub process_scroll: usize,
    pub filter_mode: bool,
    pub filter_text: String,
    pub tree_view: bool,
    pub sort_column: SortColumn,
    pub sort_ascending: bool,
    pub hostname: String,
    pub os_name: String,
    pub kernel_version: String,
    pub uptime: u64,
}

/// The history buffers always hold their full sample count.
pub open spec fn histories_wf(app: App) -> bool {
    app.cpu_history.wf() && app.mem_history.wf() && app.net_up_history.wf()
        && app.net_down_history.wf()
}

impl App {
    /// Fresh state: empty data, zero-seeded histories, no filter, flat
    /// view, CPU usage descending, first tab.
    pub fn new() -> (r: App)
        ensures
            histories_wf(r),
            r.cpu_history@ == Seq::<u64>::new(HISTORY_SIZE as nat, |i: int| 0u64),
            r.mem_history@ == Seq::<u64>::new(HISTORY_SIZE as nat, |i: int| 0u64),
            r.net_up_history@ == Seq::<u64>::new(HISTORY_SIZE as nat, |i: int| 0u64),
            r.net_down_history@ == Seq::<u64>::new(HISTORY_SIZE as nat, |i: int| 0u64),
            r.selected_tab == 0,
            r.process_scroll == 0,
            !r.filter_mode,
            r.filter_text@ == Seq::<char>::empty(),
            !r.tree_view,
            r.sort_column == SortColumn::Cpu,
            !r.sort_ascending,
            r.uptime == 0,
            r.process_data.processes@.len() == 0,
            r.network_data@.prev.len() == 0,
    {
        App {
            process_data: ProcessData::new(),
            network_data: NetworkData::new(),
            cpu_history: HistoryBuffer::new(),
            mem_history: HistoryBuffer::new(),
            net_up_history: HistoryBuffer::new(),
            net_down_history: HistoryBuffer::new(),
            selected_tab: 0,
            process_scroll: 0,
            filter_mode: false,
            filter_text: String::new(),
            tree_view: false,
            sort_column: SortColumn::Cpu,
            sort_ascending: false,
            hostname: String::new(),
            os_name: String::new(),
            kernel_version: String::new(),
            uptime: 0,
        }
    }

    /// One tick: pushes the CPU and memory samples into their histories,
    /// derives network rates and pushes them too, rebuilds the process
    /// display list under the current view settings, and records the
    /// uptime.  The view settings themselves are untouched.
    pub fn update(&mut self, input: TickInput)
        requires
            histories_wf(*old(self)),
        ensures
            histories_wf(*final(self)),
            final(self).uptime == input.uptime,
            final(self).cpu_history@ == old(self).cpu_history@.drop_first().push(input.cpu_usage),
            final(self).mem_history@ == old(self).mem_history@.drop_first().push(input.mem_used),
            final(self).net_up_history@ == old(self).net_up_history@.drop_first().push(
                final(self).network_data@.speed_up,
            ),
            final(self).net_down_history@ == old(self).net_down_history@.drop_first().push(
                final(self).network_data@.speed_down,
            ),
            final(self).network_data@.prev == sample_views(input.net@),
            final(self).network_data@.speed_down == per_second(
                sum_delta_rx(sample_views(input.net@), old(self).network_data@.prev, input.net@.len() as int),
                input.elapsed_ms,
            ),
            final(self).network_data@.speed_up == per_second(
                sum_delta_tx(sample_views(input.net@), old(self).network_data@.prev, input.net@.len() as int),
                input.elapsed_ms,
            ),
            final(self).network_data@.total_received == sum_rx(
                sample_views(input.net@),
                input.net@.len() as int,
            ),
            final(self).network_data@.total_transmitted == sum_tx(
                sample_views(input.net@),
                input.net@.len() as int,
            ),
            final(self).network_data@.interfaces == active_ifaces(
                sample_views(input.net@),
                old(self).network_data@.prev,
                input.elapsed_ms,
                input.net@.len() as int,
            ),
            record_views(final(self).process_data.processes@) == view_spec(
                input.processes@.map_values(|x: ProcSample| x@),
                old(self).filter_text@,
                input.total_memory,
                old(self).sort_column,
                old(self).sort_ascending,
                old(self).tree_view,
            ),
            final(self).process_data.total_processes == input.processes@.len(),
            final(self).process_data.running_processes == count_running(
                input.processes@.map_values(|x: ProcSample| x@),
                input.processes@.len() as int,
            ),
            final(self).filter_text == old(self).filter_text,
            final(self).filter_mode == old(self).filter_mode,
            final(self).tree_view == old(self).tree_view,
            final(self).sort_column == old(self).sort_column,
            final(self).sort_ascending == old(self).sort_ascending,
            final(self).selected_tab == old(self).selected_tab,
            final(self).process_scroll == old(self).process_scroll,
            final(self).hostname == old(self).hostname,
            final(self).os_name == old(self).os_name,
            final(self).kernel_version == old(self).kernel_version,
    {
        self.uptime = input.uptime;

        self.cpu_history.push(input.cpu_usage);
        self.mem_history.push(input.mem_used);

        let (up, down) = self.network_data.update(input.net, input.elapsed_ms);
        self.net_up_history.push(up);
        self.net_down_history.push(down);

        let filter = self.filter_text.clone();
        self.process_data.update(
            input.processes,
            input.total_memory,
            filter.as_str(),
            self.sort_column,
            self.sort_ascending,
            self.tree_view,
        );
    }

    /// Moves to the next tab, wrapping around.
    pub fn next_tab(&mut self)
        ensures
            final(self).selected_tab < TAB_COUNT,
            old(self).selected_tab < TAB_COUNT ==> final(self).selected_tab == (
            old(self).selected_tab + 1) % (TAB_COUNT as int),
            unchanged_but_tab(*old(self), *final(self)),
    {
        let t = self.selected_tab % TAB_COUNT;
        self.selected_tab = (t + 1) % TAB_COUNT;
    }

    /// Moves to the previous tab, wrapping around.
    pub fn prev_tab(&mut self)
        ensures
            old(self).selected_tab == 0 ==> final(self).selected_tab == TAB_COUNT - 1,
            old(self).selected_tab != 0 ==> final(self).selected_tab == old(self).selected_tab
                - 1,
            unchanged_but_tab(*old(self), *final(self)),
    {
        self.selected_tab = if self.selected_tab == 0 {
            TAB_COUNT - 1
        } else {
            self.selected_tab - 1
        };
    }

    /// Moves the selection up one row, stopping at the top.
    pub fn scroll_up(&mut self)
        ensures
            final(self).process_scroll == if old(self).process_scroll > 0 {
                old(self).process_scroll - 1
            } else {
                0int
            },
            unchanged_but_scroll(*old(self), *final(self)),
    {
        if self.process_scroll > 0 {
            self.process_scroll = self.process_scroll - 1;
        }
    }

    /// Moves the selection down one row, stopping at the last row.
    pub fn scroll_down(&mut self)
        ensures
            final(self).process_scroll == if (old(self).process_scroll as int) < (
            old(self).process_data.processes@.len() as int) - 1 {
                old(self).process_scroll + 1
            } else {
                old(self).process_scroll as int
            },
            unchanged_but_scroll(*old(self), *final(self)),
    {
        let max_scroll = if self.process_data.processes.len() > 0 {
            self.process_data.processes.len() - 1
        } else {
            0
        };
        if self.process_scroll < max_scroll {
            self.process_scroll = self.process_scroll + 1;
        }
    }

    /// Moves the selection to the first row.
    pub fn scroll_to_top(&mut self)
        ensures
            final(self).process_scroll == 0,
            unchanged_but_scroll(*old(self), *final(self)),
    {
        self.process_scroll = 0;
    }

    /// Moves the selection to the last row.
    pub fn scroll_to_bottom(&mut self)
        ensures
            final(self).process_scroll == if old(self).process_data.processes@.len() > 0 {
                old(self).process_data.processes@.len() - 1
            } else {
                0int
            },
            unchanged_but_scroll(*old(self), *final(self)),
    {
        self.process_scroll = if self.process_data.processes.len() > 0 {
            self.process_data.processes.len() - 1
        } else {
            0
        };
    }

    /// Enters or leaves filter-editing mode; nothing else changes.
    pub fn toggle_filter_mode(&mut self)
        ensures
            final(self).filter_mode == !old(self).filter_mode,
            final(self).filter_text == old(self).filter_text,
            final(self).tree_view == old(self).tree_view,
            final(self).process_scroll == old(self).process_scroll,
            final(self).selected_tab == old(self).selected_tab,
            final(self).sort_column == old(self).sort_column,
            final(self).sort_ascending == old(self).sort_ascending,
            same_data(*old(self), *final(self)),
    {
        self.filter_mode = !self.filter_mode;
    }

    /// Appends one character to the filter text and rewinds the selection;
    /// nothing else changes.
    pub fn add_filter_char(&mut self, c: char)
        ensures
            final(self).filter_text@ == old(self).filter_text@.push(c),
            final(self).process_scroll == 0,
            final(self).filter_mode == old(self).filter_mode,
            final(self).tree_view == old(self).tree_view,
            final(self).selected_tab == old(self).selected_tab,
            final(self).sort_column == old(self).sort_column,
            final(self).sort_ascending == old(self).sort_ascending,
            same_data(*old(self), *final(self)),
    {
        push_char(&mut self.filter_text, c);
        self.process_scroll = 0;
    }

    /// Removes the last filter character, if any, and rewinds the
    /// selection; nothing else changes.
    pub fn remove_filter_char(&mut self)
        ensures
            old(self).filter_text@.len() > 0 ==> final(self).filter_text@ == old(
                self,
            ).filter_text@.drop_last(),
            old(self).filter_text@.len() == 0 ==> final(self).filter_text@ == old(
                self,
            ).filter_text@,
            final(self).process_scroll == 0,
            final(self).filter_mode == old(self).filter_mode,
            final(self).tree_view == old(self).tree_view,
            final(self).selected_tab == old(self).selected_tab,
            final(self).sort_column == old(self).sort_column,
            final(self).sort_ascending == old(self).sort_ascending,
            same_data(*old(self), *final(self)),
    {
        let _ = pop_char(&mut self.filter_text);
        self.process_scroll = 0;
    }

    /// Clears the filter, leaves filter mode and rewinds the selection;
    /// nothing else changes.
    pub fn clear_filter(&mut self)
        ensures
            final(self).filter_text@ == Seq::<char>::empty(),
            !final(self).filter_mode,
            final(self).process_scroll == 0,
            final(self).tree_view == old(self).tree_view,
            final(self).selected_tab == old(self).selected_tab,
            final(self).sort_column == old(self).sort_column,
            final(self).sort_ascending == old(self).sort_ascending,
            same_data(*old(self), *final(self)),
    {
        self.filter_text = String::new();
        self.filter_mode = false;
        self.process_scroll = 0;
    }

    /// Switches between flat and tree view; nothing else changes.
    pub fn toggle_tree_view(&mut self)
        ensures
            final(self).tree_view == !old(self).tree_view,
            final(self).filter_text == old(self).filter_text,
            final(self).filter_mode == old(self).filter_mode,
            final(self).process_scroll == old(self).process_scroll,
            final(self).selected_tab == old(self).selected_tab,
            final(self).sort_column == old(self).sort_column,
            final(self).sort_ascending == old(self).sort_ascending,
            same_data(*old(self), *final(self)),
    {
        self.tree_view = !self.tree_view;
    }

    /// Moves the sort to the next column in the cycle Pid, Name, Cpu,
    /// Memory, and rewinds the selection; nothing else changes.
    pub fn cycle_sort(&mut self)
        ensures
            final(self).sort_column == next_column(old(self).sort_column),
            final(self).process_scroll == 0,
            final(self).sort_ascending == old(self).sort_ascending,
            final(self).filter_text == old(self).filter_text,
            final(self).filter_mode == old(self).filter_mode,
            final(self).tree_view == old(self).tree_view,
            final(self).selected_tab == old(self).selected_tab,
            same_data(*old(self), *final(self)),
    {
        self.sort_column = match self.sort_column {
            SortColumn::Pid => SortColumn::Name,
            SortColumn::Name => SortColumn::Cpu,
            SortColumn::Cpu => SortColumn::Memory,
            SortColumn::Memory => SortColumn::Pid,
        };
        self.process_scroll = 0;
    }

    /// Reverses the sort direction and rewinds the selection; nothing else
    /// changes.
    pub fn toggle_sort_order(&mut self)
        ensures
            final(self).sort_ascending == !old(self).sort_ascending,
            final(self).sort_column == old(self).sort_column,
            final(self).process_scroll == 0,
            final(self).filter_text == old(self).filter_text,
            final(self).filter_mode == old(self).filter_mode,
            final(self).tree_view == old(self).tree_view,
            final(self).selected_tab == old(self).selected_tab,
            same_data(*old(self), *final(self)),
    {
        self.sort_ascending = !self.sort_ascending;
        self.process_scroll = 0;
    }

    /// The current display list.
    pub fn get_filtered_processes(&self) -> (r: &Vec<crate::process::ProcessInfo>)
        ensures
            r@ == self.process_data.processes@,
    {
        &self.process_data.processes
    }

    /// The display text for the uptime: days, hours and minutes, omitting
    /// leading zero units.
    pub fn format_uptime(&self) -> (r: String)
        ensures
            r@ == uptime_text(self.uptime),
    {
        let days = self.uptime / 86400;
        let hours = (self.uptime % 86400) / 3600;
        let minutes = (self.uptime % 3600) / 60;
        if days > 0 {
            let mut out = u64_to_dec(days);
            out.append("d ");
            push_dec(hours, &mut out);
            out.append("h ");
            push_dec(minutes, &mut out);
            out.append("m");
            out
        } else if hours > 0 {
            let mut out = u64_to_dec(hours);
            out.append("h ");
            push_dec(minutes, &mut out);
            out.append("m");
            out
        } else {
            let mut out = u64_to_dec(minutes);
            out.append("m");
            out
        }
    }
}

/// The column after `c` in the sort cycle.
pub open spec fn next_column(c: SortColumn) -> SortColumn {
    match c {
        SortColumn::Pid => SortColumn::Name,
        SortColumn::Name => SortColumn::Cpu,
        SortColumn::Cpu => SortColumn::Memory,
        SortColumn::Memory => SortColumn::Pid,
    }
}

/// The display text for an uptime in seconds.
pub open spec fn uptime_text(u: u64) -> Seq<char> {
    let days = (u as nat) / 86400;
    let hours = ((u as nat) % 86400) / 3600;
    let minutes = ((u as nat) % 3600) / 60;
    if days > 0 {
        dec_digits(days) + "d "@ + dec_digits(hours) + "h "@ + dec_digits(minutes) + "m"@
    } else if hours > 0 {
        dec_digits(hours) + "h "@ + dec_digits(minutes) + "m"@
    } else {
        dec_digits(minutes) + "m"@
    }
}

/// The data fields — process table, network state, histories, host info
/// and uptime — are untouched.
pub open spec fn same_data(a: App, b: App) -> bool {
    b.process_data == a.process_data && b.network_data == a.network_data && b.cpu_history
        == a.cpu_history && b.mem_history == a.mem_history && b.net_up_history
        == a.net_up_history && b.net_down_history == a.net_down_history && b.hostname
        == a.hostname && b.os_name == a.os_name && b.kernel_version == a.kernel_version
        && b.uptime == a.uptime
}

/// Everything except the tab selection is untouched.
pub open spec fn unchanged_but_tab(a: App, b: App) -> bool {
    same_data(a, b) && b.process_scroll == a.process_scroll && b.filter_mode == a.filter_mode
        && b.filter_text == a.filter_text && b.tree_view == a.tree_view && b.sort_column
        == a.sort_column && b.sort_ascending == a.sort_ascending
}

/// Everything except the selection index is untouched.
pub open spec fn unchanged_but_scroll(a: App, b: App) -> bool {
    same_data(a, b) && b.selected_tab == a.selected_tab && b.filter_mode == a.filter_mode
        && b.filter_text == a.filter_text && b.tree_view == a.tree_view && b.sort_column
        == a.sort_column && b.sort_ascending == a.sort_ascending
}

} // verus!
