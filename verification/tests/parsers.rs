//! Tests for the battery and connection probe parsers and the shared
//! classification utilities.

use mprobe::{BatteryData, BatteryState, ConnectionData};
use mprobe::{format_macos_addr, format_state, format_status, parse_meminfo, parse_meminfo_value,
    parse_ss_process_info, parse_time_str, truncate_addr, truncate_string};

#[test]
fn battery_text_example() {
    // "...87%; discharging; 3:15 remaining" means 87%, discharging,
    // 11700 seconds to empty and no time to full.
    let mut data = BatteryData::new();
    let output = "Now drawing from 'Battery Power'\n -InternalBattery-0 (id=12345)\t87%; discharging; 3:15 remaining present: true\n";
    data.update(output);
    assert!(data.has_battery);
    assert_eq!(data.batteries.len(), 1);
    let b = &data.batteries[0];
    assert_eq!(b.percentage, 87);
    assert_eq!(b.state, BatteryState::Discharging);
    assert_eq!(b.time_to_empty, Some(11700));
    assert_eq!(b.time_to_full, None);
}

#[test]
fn battery_fractional_percentage_keeps_integer_part() {
    let mut data = BatteryData::new();
    data.update(" -InternalBattery-0	87.5%; discharging; 0:10 remaining
");
    assert_eq!(data.batteries[0].percentage, 87);
}

#[test]
fn battery_charging_line() {
    let mut data = BatteryData::new();
    let output = " -InternalBattery-0 (id=1)\t42%; charging; 2:05 until charged present: true\n";
    data.update(output);
    let b = &data.batteries[0];
    assert_eq!(b.percentage, 42);
    assert_eq!(b.state, BatteryState::Charging);
    assert_eq!(b.time_to_empty, None);
    assert_eq!(b.time_to_full, Some(2 * 3600 + 5 * 60));
}

#[test]
fn battery_charged_line_is_full() {
    let mut data = BatteryData::new();
    data.update(" -InternalBattery-0\t100%; charged present: true\n");
    let b = &data.batteries[0];
    assert_eq!(b.percentage, 100);
    assert_eq!(b.state, BatteryState::Full);
    assert_eq!(b.time_to_empty, None);
    assert_eq!(b.time_to_full, None);
}

#[test]
fn battery_malformed_line_gives_defaults() {
    let mut data = BatteryData::new();
    // The battery marker is present but nothing else parses: the worst
    // case for a malformed record is an empty default, never an error.
    data.update("InternalBattery nonsense without fields\n");
    assert_eq!(data.batteries.len(), 1);
    let b = &data.batteries[0];
    assert_eq!(b.percentage, 0);
    assert_eq!(b.state, BatteryState::Unknown);
    assert_eq!(b.time_to_empty, None);
    assert_eq!(b.time_to_full, None);
}

#[test]
fn battery_irrelevant_output_is_ignored() {
    let mut data = BatteryData::new();
    data.update("Now drawing from 'AC Power'\n");
    assert!(!data.has_battery);
    assert_eq!(data.batteries.len(), 0);
}

#[test]
fn battery_not_charging_line() {
    let mut data = BatteryData::new();
    data.update(" -InternalBattery-0\t80%; not charging present: true\n");
    assert_eq!(data.batteries[0].state, BatteryState::NotCharging);
}

#[test]
fn time_str_parses_hours_and_minutes() {
    assert_eq!(parse_time_str("5:30"), Some(5 * 3600 + 30 * 60));
    assert_eq!(parse_time_str("0:01"), Some(60));
    assert_eq!(parse_time_str(" 3:15 "), Some(11700));
    assert_eq!(parse_time_str("no colon"), None);
    assert_eq!(parse_time_str("1:2:3"), None);
    assert_eq!(parse_time_str("a:b"), None);
    assert_eq!(parse_time_str(":30"), None);
}

#[test]
fn battery_from_sysfs_discharging() {
    let b = BatteryData::from_sysfs(73, "Discharging\n", Some(50_000_000), Some(10_000_000), None);
    assert_eq!(b.percentage, 73);
    assert_eq!(b.state, BatteryState::Discharging);
    // 50 / 10 hours = 5 h = 18000 s.
    assert_eq!(b.time_to_empty, Some(18000));
    assert_eq!(b.time_to_full, None);
}

#[test]
fn battery_from_sysfs_charging() {
    let b = BatteryData::from_sysfs(
        40,
        "Charging",
        Some(40_000_000),
        Some(20_000_000),
        Some(60_000_000),
    );
    assert_eq!(b.state, BatteryState::Charging);
    assert_eq!(b.time_to_empty, None);
    // (60 - 40) / 20 hours = 1 h.
    assert_eq!(b.time_to_full, Some(3600));
}

#[test]
fn battery_from_sysfs_zero_power_means_absent() {
    let b = BatteryData::from_sysfs(50, "Discharging", Some(1000), Some(0), None);
    assert_eq!(b.time_to_empty, None);
    let b = BatteryData::from_sysfs(50, "Borked", None, None, None);
    assert_eq!(b.state, BatteryState::Unknown);
}

#[test]
fn battery_format_time() {
    assert_eq!(BatteryData::format_time(11700), "3h 15m");
    assert_eq!(BatteryData::format_time(59), "0m");
    assert_eq!(BatteryData::format_time(3600), "1h 0m");
    assert_eq!(BatteryData::format_time(2 * 60), "2m");
}

#[test]
fn battery_state_label() {
    assert_eq!(BatteryState::NotCharging.label(), "Not Charging");
    assert_eq!(BatteryState::Charging.label(), "Charging");
}

#[test]
fn connection_line_example() {
    // A listening sshd socket with an owner annotation.
    let mut data = ConnectionData::new();
    data.update("tcp LISTEN 0 128 0.0.0.0:22 0.0.0.0:* users:((\"sshd\",pid=1234,fd=3))\n");
    assert_eq!(data.listening_ports.len(), 1);
    assert_eq!(data.connections.len(), 0);
    let c = &data.listening_ports[0];
    assert_eq!(c.protocol, "TCP");
    assert_eq!(c.state, "LISTEN");
    assert_eq!(c.local_addr, "0.0.0.0:22");
    assert_eq!(c.remote_addr, "0.0.0.0:*");
    assert_eq!(c.pid, Some(1234));
    assert_eq!(c.process_name.as_deref(), Some("sshd"));
}

#[test]
fn connection_partition_and_drop() {
    let mut data = ConnectionData::new();
    let output = "tcp ESTAB 0 0 10.0.0.1:443 10.0.0.2:51000\n\
                  udp UNCONN 0 0 0.0.0.0:68 0.0.0.0:*\n\
                  tcp LISTEN 0 4096 127.0.0.1:631 0.0.0.0:*\n\
                  tcp TIME-WAIT 0 0 10.0.0.1:80 10.0.0.9:5555\n\
                  tcp CLOSE-WAIT 0 0 10.0.0.1:81 10.0.0.9:5556\n";
    data.update(output);
    // UNCONN is dropped entirely; the rest partition.
    assert_eq!(data.listening_ports.len(), 1);
    assert_eq!(data.connections.len(), 3);
    assert_eq!(data.connections[0].state, "ESTAB");
    assert_eq!(data.connections[1].state, "TIME-WAIT");
    assert_eq!(data.connections[2].state, "CLOSE-WAIT");
}

#[test]
fn connection_short_line_is_skipped() {
    let mut data = ConnectionData::new();
    data.update("tcp LISTEN 0\nnot enough columns\n");
    assert_eq!(data.listening_ports.len(), 0);
    assert_eq!(data.connections.len(), 0);
}

#[test]
fn connection_update_clears_previous_tick() {
    let mut data = ConnectionData::new();
    data.update("tcp LISTEN 0 128 0.0.0.0:22 0.0.0.0:*\n");
    assert_eq!(data.listening_ports.len(), 1);
    data.update("");
    assert_eq!(data.listening_ports.len(), 0);
}

#[test]
fn netstat_rows_with_dot_addresses() {
    let mut data = ConnectionData::new();
    let output = "Active Internet connections (including servers)\n\
                  Proto Recv-Q Send-Q  Local Address          Foreign Address        (state)\n\
                  tcp4       0      0  127.0.0.1.631          *.*                    LISTEN\n\
                  tcp4       0      0  10.0.0.5.50234         93.184.216.34.443      ESTABLISHED\n\
                  tcp4       0      0  10.0.0.5.50240         93.184.216.34.80       SYN_SENT\n";
    data.parse_netstat_output(output, "TCP");
    assert_eq!(data.listening_ports.len(), 1);
    assert_eq!(data.connections.len(), 1);
    let l = &data.listening_ports[0];
    assert_eq!(l.protocol, "TCP");
    assert_eq!(l.local_addr, "127.0.0.1:631");
    assert_eq!(l.remote_addr, "*:*");
    let c = &data.connections[0];
    assert_eq!(c.local_addr, "10.0.0.5:50234");
    assert_eq!(c.remote_addr, "93.184.216.34:443");
    assert_eq!(c.pid, None);
}

#[test]
fn netstat_header_rows_are_skipped() {
    let mut data = ConnectionData::new();
    // Rows that would classify, placed where the two headers sit, are
    // never read.
    let output = "tcp4 0 0 1.2.3.4.80 *.* LISTEN\n\
                  tcp4 0 0 1.2.3.4.81 *.* LISTEN\n";
    data.parse_netstat_output(output, "TCP");
    assert_eq!(data.listening_ports.len(), 0);
}

#[test]
fn macos_addr_normalization() {
    assert_eq!(format_macos_addr("127.0.0.1.8080"), "127.0.0.1:8080");
    assert_eq!(format_macos_addr("*.*"), "*:*");
    assert_eq!(format_macos_addr("localhost"), "localhost");
}

#[test]
fn ss_process_info_extraction() {
    let (pid, name) = parse_ss_process_info("users:((\"sshd\",pid=1234,fd=3))");
    assert_eq!(pid, Some(1234));
    assert_eq!(name.as_deref(), Some("sshd"));
    let (pid, name) = parse_ss_process_info("garbage");
    assert_eq!(pid, None);
    assert_eq!(name, None);
}

#[test]
fn meminfo_value_and_scan() {
    assert_eq!(parse_meminfo_value("Cached:          1234567 kB"), 1234567 * 1024);
    assert_eq!(parse_meminfo_value("Cached:"), 0);
    assert_eq!(parse_meminfo_value("Cached: notanumber kB"), 0);
    let (cached, buffers) = parse_meminfo(
        "MemTotal: 100 kB\nBuffers: 7 kB\nCached: 50 kB\nSwapTotal: 0 kB\n",
    );
    assert_eq!(cached, 50 * 1024);
    assert_eq!(buffers, 7 * 1024);
}

#[test]
fn state_and_status_buckets() {
    assert_eq!(format_state("ESTABLISHED"), "ESTAB");
    assert_eq!(format_state("CLOSE_WAIT"), "CLOSE-W");
    assert_eq!(format_state("TIME-WAIT"), "TIME-W");
    assert_eq!(format_state("SYN_SENT_EXTRA"), "SYN_SENT_E");
    assert_eq!(format_status("Runnable"), "Running");
    assert_eq!(format_status("Sleeping"), "Sleep");
    assert_eq!(format_status("Idle"), "Idle");
    assert_eq!(format_status("Zombie"), "Zombie");
    assert_eq!(format_status("Parked etc"), "Parked ");
}

#[test]
fn truncation_adds_ellipsis() {
    assert_eq!(truncate_addr("0.0.0.0:22", 20), "0.0.0.0:22");
    assert_eq!(truncate_addr("123.456.789.012:34567", 10), "123.456.7…");
    assert_eq!(truncate_string("short", 25), "short");
    assert_eq!(truncate_string("a-very-long-process-name", 10), "a-very-lo…");
}

#[test]
fn battery_multiple_lines_give_multiple_records() {
    let mut data = BatteryData::new();
    let output = " -InternalBattery-0\t90%; discharging; 1:00 remaining\n\
                  ignored line\n\
                  -InternalBattery-1\t30%; charging; 0:30 until charged\n";
    data.update(output);
    assert_eq!(data.batteries.len(), 2);
    assert_eq!(data.batteries[0].percentage, 90);
    assert_eq!(data.batteries[0].time_to_empty, Some(3600));
    assert_eq!(data.batteries[1].percentage, 30);
    assert_eq!(data.batteries[1].time_to_full, Some(1800));
}

#[test]
fn ss_row_without_remote_gets_wildcard() {
    let mut data = ConnectionData::new();
    data.update("udp LISTEN 0 0 0.0.0.0:68\n");
    assert_eq!(data.listening_ports.len(), 1);
    let c = &data.listening_ports[0];
    assert_eq!(c.protocol, "UDP");
    assert_eq!(c.remote_addr, "*:*");
    assert_eq!(c.pid, None);
    assert_eq!(c.process_name, None);
}

#[test]
fn netstat_wildcard_remote_is_listening_without_state() {
    let mut data = ConnectionData::new();
    let output = "header\nheader\nudp4 0 0 *.5353 *.*\n";
    data.parse_netstat_output(output, "UDP");
    assert_eq!(data.listening_ports.len(), 1);
    assert_eq!(data.listening_ports[0].remote_addr, "*:*");
    assert_eq!(data.listening_ports[0].state, "");
}
