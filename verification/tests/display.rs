//! Tests for configuration defaults, match highlighting and the tree
//! builder called directly.

use mprobe::{build_process_tree, find_matches, Config, ProcessInfo};

fn record(pid: u32, ppid: Option<u32>, cpu: u64) -> ProcessInfo {
    ProcessInfo {
        pid,
        parent_pid: ppid,
        name: format!("proc{}", pid),
        cpu_usage: cpu,
        memory: 0,
        memory_percent: 0,
        status: "Sleeping".to_string(),
        depth: 0,
    }
}

#[test]
fn config_defaults() {
    let c = Config::default();
    assert_eq!(c.update_interval, 250);
    assert!(!c.no_color);
    assert_eq!(c.sort_by, "cpu");
    assert!(!c.sort_ascending);
}

#[test]
fn find_matches_is_case_sensitive_on_prepared_text() {
    // The caller lowercases both sides; on the prepared text matching is
    // exact and non-overlapping, scanning left to right.
    assert_eq!(find_matches("firefox favors fire", "fire"), vec![(0, 4), (15, 19)]);
    assert_eq!(find_matches("aaaa", "aa"), vec![(0, 2), (2, 4)]);
    assert_eq!(find_matches("abc", "zz"), Vec::<(usize, usize)>::new());
    assert_eq!(find_matches("abc", ""), Vec::<(usize, usize)>::new());
}

#[test]
fn tree_depths_follow_ancestry() {
    let input = vec![
        record(1, None, 10),
        record(2, Some(1), 20),
        record(3, Some(2), 30),
        record(4, Some(1), 40),
    ];
    let out = build_process_tree(input);
    let got: Vec<(u32, usize)> = out.iter().map(|p| (p.pid, p.depth)).collect();
    // Children of 1 by cpu desc: 4 (40) before 2 (20); 3 nests under 2.
    assert_eq!(got, vec![(1, 0), (4, 1), (2, 1), (3, 2)]);
}

#[test]
fn tree_self_parent_is_its_own_root() {
    // A record naming itself as parent is not a root (its parent pid
    // exists), but the completeness sweep still emits it exactly once.
    let input = vec![record(1, None, 0), record(7, Some(7), 5)];
    let out = build_process_tree(input);
    let mut pids: Vec<u32> = out.iter().map(|p| p.pid).collect();
    pids.sort();
    assert_eq!(pids, vec![1, 7]);
}
