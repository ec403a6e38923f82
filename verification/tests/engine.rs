//! Tests for the hierarchy builder, sorting, rates and history.

use mprobe::{App, HistoryBuffer, IfaceSample, NetworkData, ProcSample, ProcessData, SortColumn,
    TickInput};

fn sample(pid: u32, ppid: Option<u32>, name: &str, cpu: u64, memory: u64) -> ProcSample {
    ProcSample {
        pid,
        parent_pid: ppid,
        name: name.to_string(),
        cmd: String::new(),
        cpu_usage: cpu,
        memory,
        status: "Sleeping".to_string(),
    }
}

fn update_flat(
    data: &mut ProcessData,
    samples: Vec<ProcSample>,
    filter: &str,
    col: SortColumn,
    asc: bool,
) {
    data.update(samples, 0, filter, col, asc, false);
}

#[test]
fn tree_build_example() {
    // Input: pid 1 without parent (cpu 5), pid 2 child of 1 (cpu 50),
    // pid 3 with stale parent 99 (cpu 10).  Roots are 3 then 1 by
    // descending cpu; 2 nests under 1.
    let mut data = ProcessData::new();
    let samples = vec![
        sample(1, None, "a", 500, 10),
        sample(2, Some(1), "b", 5000, 10),
        sample(3, Some(99), "c", 1000, 10),
    ];
    data.update(samples, 0, "", SortColumn::Pid, true, true);
    let pids: Vec<u32> = data.processes.iter().map(|p| p.pid).collect();
    let depths: Vec<usize> = data.processes.iter().map(|p| p.depth).collect();
    assert_eq!(pids, vec![3, 1, 2]);
    assert_eq!(depths, vec![0, 0, 1]);
}

#[test]
fn tree_contains_every_process_once() {
    let mut data = ProcessData::new();
    // An inconsistent table: 10 and 11 form a parent cycle, unreachable
    // from any root; every process must still appear exactly once.
    let samples = vec![
        sample(1, None, "init", 100, 1),
        sample(10, Some(11), "x", 200, 1),
        sample(11, Some(10), "y", 300, 1),
        sample(2, Some(1), "child", 400, 1),
    ];
    data.update(samples, 0, "", SortColumn::Pid, true, true);
    let mut pids: Vec<u32> = data.processes.iter().map(|p| p.pid).collect();
    assert_eq!(pids.len(), 4);
    pids.sort();
    assert_eq!(pids, vec![1, 2, 10, 11]);
}

#[test]
fn tree_sibling_order_ties_keep_input_order() {
    let mut data = ProcessData::new();
    let samples = vec![
        sample(1, None, "root", 0, 1),
        sample(2, Some(1), "first", 700, 1),
        sample(3, Some(1), "tie-a", 300, 1),
        sample(4, Some(1), "tie-b", 300, 1),
        sample(5, Some(1), "top", 900, 1),
    ];
    data.update(samples, 0, "", SortColumn::Pid, true, true);
    let pids: Vec<u32> = data.processes.iter().map(|p| p.pid).collect();
    // Children of 1 by descending cpu: 5 (900), 2 (700), then the tie 3, 4
    // in input order.
    assert_eq!(pids, vec![1, 5, 2, 3, 4]);
    assert_eq!(data.processes[0].depth, 0);
    assert!(data.processes[1..].iter().all(|p| p.depth == 1));
}

#[test]
fn tree_rebuild_is_idempotent() {
    let build = || {
        let mut data = ProcessData::new();
        let samples = vec![
            sample(7, Some(3), "c", 100, 5),
            sample(3, None, "a", 900, 6),
            sample(4, Some(3), "b", 100, 7),
        ];
        data.update(samples, 1000, "", SortColumn::Pid, true, true);
        data.processes
            .iter()
            .map(|p| (p.pid, p.depth, p.cpu_usage))
            .collect::<Vec<_>>()
    };
    assert_eq!(build(), build());
}

#[test]
fn filter_forces_flat_output() {
    let mut data = ProcessData::new();
    let samples = vec![
        sample(1, None, "systemd", 100, 1),
        sample(2, Some(1), "systemd-journal", 200, 1),
        sample(3, Some(2), "sshd", 300, 1),
    ];
    // Tree view requested, but the filter is active: all depths stay 0.
    data.update(samples, 0, "systemd", SortColumn::Pid, true, true);
    assert_eq!(data.processes.len(), 2);
    assert!(data.processes.iter().all(|p| p.depth == 0));
}

#[test]
fn filter_is_case_insensitive_and_checks_cmd() {
    let mut data = ProcessData::new();
    let mut with_cmd = sample(5, None, "worker", 100, 1);
    with_cmd.cmd = "/usr/bin/PYTHON3 script.py".to_string();
    let samples = vec![
        sample(1, None, "FireFox", 100, 1),
        sample(2, None, "chrome", 100, 1),
        with_cmd,
    ];
    update_flat(&mut data, samples, "fire", SortColumn::Pid, true);
    assert_eq!(data.processes.len(), 1);
    assert_eq!(data.processes[0].pid, 1);

    let mut data2 = ProcessData::new();
    let mut with_cmd = sample(5, None, "worker", 100, 1);
    with_cmd.cmd = "/usr/bin/PYTHON3 script.py".to_string();
    update_flat(&mut data2, vec![with_cmd], "python", SortColumn::Pid, true);
    assert_eq!(data2.processes.len(), 1);
}

#[test]
fn counts_total_and_running() {
    let mut data = ProcessData::new();
    let mut running = sample(1, None, "busy", 100, 1);
    running.status = "Runnable".to_string();
    let samples = vec![running, sample(2, None, "idle", 0, 1), sample(3, None, "z", 0, 1)];
    // The filter drops records but never the counts.
    update_flat(&mut data, samples, "busy", SortColumn::Pid, true);
    assert_eq!(data.total_processes, 3);
    assert_eq!(data.running_processes, 1);
    assert_eq!(data.processes.len(), 1);
}

#[test]
fn sort_by_each_column() {
    let mk = || {
        vec![
            sample(3, None, "bravo", 200, 30),
            sample(1, None, "Alpha", 300, 10),
            sample(2, None, "charlie", 100, 20),
        ]
    };
    let mut data = ProcessData::new();
    update_flat(&mut data, mk(), "", SortColumn::Pid, true);
    let pids: Vec<u32> = data.processes.iter().map(|p| p.pid).collect();
    assert_eq!(pids, vec![1, 2, 3]);

    update_flat(&mut data, mk(), "", SortColumn::Name, true);
    let pids: Vec<u32> = data.processes.iter().map(|p| p.pid).collect();
    // Case-insensitive: Alpha, bravo, charlie.
    assert_eq!(pids, vec![1, 3, 2]);

    update_flat(&mut data, mk(), "", SortColumn::Cpu, false);
    let pids: Vec<u32> = data.processes.iter().map(|p| p.pid).collect();
    assert_eq!(pids, vec![1, 3, 2]);

    update_flat(&mut data, mk(), "", SortColumn::Memory, true);
    let pids: Vec<u32> = data.processes.iter().map(|p| p.pid).collect();
    assert_eq!(pids, vec![1, 2, 3]);
}

#[test]
fn sort_is_stable_on_equal_keys() {
    let mut data = ProcessData::new();
    let samples = vec![
        sample(9, None, "x", 100, 1),
        sample(4, None, "x", 100, 1),
        sample(7, None, "x", 100, 1),
    ];
    update_flat(&mut data, samples, "", SortColumn::Cpu, true);
    let pids: Vec<u32> = data.processes.iter().map(|p| p.pid).collect();
    // Equal cpu: input order 9, 4, 7 is kept.
    assert_eq!(pids, vec![9, 4, 7]);
}

#[test]
fn memory_percent_is_hundredths() {
    let mut data = ProcessData::new();
    // 256 MiB of 1 GiB is 25%.
    let samples = vec![sample(1, None, "p", 0, 268435456)];
    data.update(samples, 1073741824, "", SortColumn::Pid, true, false);
    assert_eq!(data.processes[0].memory_percent, 2500);
}

#[test]
fn rate_example_250ms_tick() {
    // rx counters 1000 then 1400 across a 250 ms tick:
    // (1400-1000) x 4 = 1600 B/s, for the interface and the aggregate.
    let mut net = NetworkData::new();
    let first = vec![IfaceSample { name: "eth0".to_string(), received: 1000, transmitted: 0 }];
    net.update(first, 250);
    let second = vec![IfaceSample { name: "eth0".to_string(), received: 1400, transmitted: 0 }];
    let (up, down) = net.update(second, 250);
    assert_eq!(down, 1600);
    assert_eq!(up, 0);
    let ifaces = net.interfaces();
    assert_eq!(ifaces[0].speed_down, 1600);
    assert_eq!(ifaces[0].speed_up, 0);
}

#[test]
fn rate_scales_with_elapsed_time() {
    let eth = |rx| vec![IfaceSample { name: "eth0".to_string(), received: rx, transmitted: 0 }];
    // The same 400-byte delta over different measured intervals.
    let mut net = NetworkData::new();
    net.update(eth(1000), 250);
    let (_, down) = net.update(eth(1400), 500);
    assert_eq!(down, 800);
    let (_, down) = net.update(eth(1800), 1000);
    assert_eq!(down, 400);
    let (_, down) = net.update(eth(2200), 125);
    assert_eq!(down, 3200);
    // A zero interval (the very first tick has one) reports zero.
    let (_, down) = net.update(eth(2600), 0);
    assert_eq!(down, 0);
}

#[test]
fn rate_counter_reset_clamps_to_zero() {
    let mut net = NetworkData::new();
    net.update(vec![IfaceSample { name: "eth0".to_string(), received: 5000, transmitted: 800 }], 250);
    let (up, down) = net.update(vec![IfaceSample {
        name: "eth0".to_string(),
        received: 100,
        transmitted: 900,
    }], 250);
    assert_eq!(down, 0);
    assert_eq!(up, 400);
}

#[test]
fn rate_new_interface_has_no_spike() {
    let mut net = NetworkData::new();
    // First sighting: previous is taken as current, so the rate is 0.
    let (up, down) = net.update(vec![IfaceSample {
        name: "wlan0".to_string(),
        received: 123456,
        transmitted: 7890,
    }], 250);
    assert_eq!((up, down), (0, 0));
    assert_eq!(net.total_received(), 123456);
    assert_eq!(net.total_transmitted(), 7890);
}

#[test]
fn interfaces_list_skips_idle_interfaces() {
    let mut net = NetworkData::new();
    net.update(vec![
        IfaceSample { name: "lo".to_string(), received: 0, transmitted: 0 },
        IfaceSample { name: "eth0".to_string(), received: 10, transmitted: 0 },
    ], 250);
    let ifaces = net.interfaces();
    assert_eq!(ifaces.len(), 1);
    assert_eq!(ifaces[0].name, "eth0");
    assert_eq!(ifaces[0].received, 10);
}

#[test]
fn history_starts_full_of_zeros() {
    let h = HistoryBuffer::new();
    assert_eq!(h.len(), 120);
    assert!(h.samples().iter().all(|&v| v == 0));
}

#[test]
fn history_evicts_oldest_first() {
    let mut h = HistoryBuffer::new();
    for i in 0..130u64 {
        h.push(i + 1);
    }
    // Always exactly 120 samples, oldest first: after 130 pushes the
    // first sample is push number 11.
    assert_eq!(h.len(), 120);
    assert_eq!(h.get(0), 11);
    assert_eq!(h.get(119), 130);
    let s = h.samples();
    assert_eq!(s.len(), 120);
    assert_eq!(s[0], 11);
    assert_eq!(s[119], 130);
}

#[test]
fn app_tick_updates_histories_and_rates() {
    let mut app = App::new();
    let input = TickInput {
        processes: vec![sample(1, None, "init", 100, 4096)],
        total_memory: 1048576,
        net: vec![IfaceSample { name: "eth0".to_string(), received: 500, transmitted: 300 }],
        elapsed_ms: 250,
        cpu_usage: 1234,
        mem_used: 5678,
        uptime: 3661,
    };
    app.update(input);
    assert_eq!(app.uptime, 3661);
    assert_eq!(app.cpu_history.len(), 120);
    assert_eq!(app.cpu_history.get(119), 1234);
    assert_eq!(app.mem_history.get(119), 5678);
    assert_eq!(app.net_up_history.get(119), 0);
    assert_eq!(app.net_down_history.get(119), 0);
    assert_eq!(app.process_data.total_processes, 1);
    assert_eq!(app.format_uptime(), "1h 1m");
}

#[test]
fn app_controls() {
    let mut app = App::new();
    assert_eq!(app.selected_tab, 0);
    app.next_tab();
    assert_eq!(app.selected_tab, 1);
    app.prev_tab();
    app.prev_tab();
    assert_eq!(app.selected_tab, 3);
    app.next_tab();
    assert_eq!(app.selected_tab, 0);

    assert_eq!(app.sort_column, SortColumn::Cpu);
    app.cycle_sort();
    assert_eq!(app.sort_column, SortColumn::Memory);
    app.cycle_sort();
    assert_eq!(app.sort_column, SortColumn::Pid);
    app.cycle_sort();
    assert_eq!(app.sort_column, SortColumn::Name);
    app.cycle_sort();
    assert_eq!(app.sort_column, SortColumn::Cpu);

    assert!(!app.sort_ascending);
    app.toggle_sort_order();
    assert!(app.sort_ascending);

    app.add_filter_char('s');
    app.add_filter_char('h');
    assert_eq!(app.filter_text, "sh");
    app.remove_filter_char();
    assert_eq!(app.filter_text, "s");
    app.clear_filter();
    assert_eq!(app.filter_text, "");
    assert!(!app.filter_mode);

    app.toggle_tree_view();
    assert!(app.tree_view);
}

#[test]
fn scroll_is_bounded() {
    let mut app = App::new();
    app.scroll_up();
    assert_eq!(app.process_scroll, 0);
    app.scroll_down();
    assert_eq!(app.process_scroll, 0);
    let input = TickInput {
        processes: vec![
            sample(1, None, "a", 0, 0),
            sample(2, None, "b", 0, 0),
            sample(3, None, "c", 0, 0),
        ],
        total_memory: 0,
        net: vec![],
        elapsed_ms: 250,
        cpu_usage: 0,
        mem_used: 0,
        uptime: 0,
    };
    app.update(input);
    app.scroll_down();
    app.scroll_down();
    app.scroll_down();
    app.scroll_down();
    assert_eq!(app.process_scroll, 2);
    app.scroll_to_top();
    assert_eq!(app.process_scroll, 0);
    app.scroll_to_bottom();
    assert_eq!(app.process_scroll, 2);
    app.scroll_up();
    assert_eq!(app.process_scroll, 1);
}

#[test]
fn uptime_formats() {
    let mut app = App::new();
    let tick = |uptime| TickInput {
        processes: vec![],
        total_memory: 0,
        net: vec![],
        elapsed_ms: 250,
        cpu_usage: 0,
        mem_used: 0,
        uptime,
    };
    app.update(tick(59));
    assert_eq!(app.format_uptime(), "0m");
    app.update(tick(2 * 86400 + 3 * 3600 + 4 * 60));
    assert_eq!(app.format_uptime(), "2d 3h 4m");
    app.update(tick(7 * 60));
    assert_eq!(app.format_uptime(), "7m");
}

#[test]
fn counter_delta_is_exact_and_clamped() {
    assert_eq!(mprobe::counter_delta(1400, 1000), 400);
    assert_eq!(mprobe::counter_delta(100, 5000), 0);
    assert_eq!(mprobe::counter_delta(7, 7), 0);
}

#[test]
fn history_shifts_across_ticks() {
    let mut app = App::new();
    let tick = |cpu| TickInput {
        processes: vec![],
        total_memory: 0,
        net: vec![],
        elapsed_ms: 250,
        cpu_usage: cpu,
        mem_used: 0,
        uptime: 0,
    };
    app.update(tick(100));
    app.update(tick(200));
    assert_eq!(app.cpu_history.len(), 120);
    assert_eq!(app.cpu_history.get(118), 100);
    assert_eq!(app.cpu_history.get(119), 200);
    assert_eq!(app.cpu_history.get(0), 0);
}

#[test]
fn name_sort_descending_reverses() {
    let mut data = ProcessData::new();
    let samples = vec![
        sample(1, None, "alpha", 0, 0),
        sample(2, None, "Bravo", 0, 0),
        sample(3, None, "charlie", 0, 0),
    ];
    update_flat(&mut data, samples, "", SortColumn::Name, false);
    let pids: Vec<u32> = data.processes.iter().map(|p| p.pid).collect();
    assert_eq!(pids, vec![3, 2, 1]);
}
