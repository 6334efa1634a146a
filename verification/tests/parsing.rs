use server_chronicle::containers::simplify_container_status;
use server_chronicle::power::PowerState;
use server_chronicle::process::{merge_by_pid, parse_process_line, MemUnit, ProcessSortMode, mem_unit};
use server_chronicle::sysinfo::{
    cpu_stat_line_in_range, cpu_usage_delta, disk_usage, fan_rpm_from_ec, fan_speed_from_readings,
    fan_status_text, CoolingDevice,
    parse_cpu_stat_line, parse_mem_line, parse_meminfo, parse_uptime_secs, read_sys_u64,
    read_sys_u8, resolve_hostname, uptime_parts,
};

#[test]
fn test_simplify_container_status() {
    assert_eq!(simplify_container_status("Up 6 weeks"), "running");
    assert_eq!(
        simplify_container_status("Up 14 minutes (healthy)"),
        "running"
    );
    assert_eq!(
        simplify_container_status("Exited (0) 2 minutes ago"),
        "exited"
    );
    assert_eq!(simplify_container_status("Paused"), "paused");
    assert_eq!(
        simplify_container_status("Restarting (1) 5s ago"),
        "restarting"
    );
    assert_eq!(simplify_container_status("unknown status"), "stopped");
}

#[test]
fn simplify_container_status_trims_and_folds_case() {
    assert_eq!(simplify_container_status("  UP 3 days"), "running");
    assert_eq!(simplify_container_status("\texit"), "exited");
    assert_eq!(simplify_container_status(""), "stopped");
    assert_eq!(simplify_container_status("running"), "stopped");
}

#[test]
fn test_power_state_parsing() {
    assert_eq!(PowerState::from_str("Charging"), PowerState::Charging);
    assert_eq!(PowerState::from_str("Discharging"), PowerState::Discharging);
    assert_eq!(PowerState::from_str("Full"), PowerState::Full);
}

#[test]
fn power_state_parsing_edges() {
    assert_eq!(PowerState::from_str("  not CHARGING\n"), PowerState::NotCharging);
    assert_eq!(PowerState::from_str("full\n"), PowerState::Full);
    assert_eq!(PowerState::from_str("Charging!"), PowerState::Unknown);
    assert_eq!(PowerState::from_str(""), PowerState::Unknown);
    assert_eq!(PowerState::Discharging.as_str(), "Discharging (On Battery)");
    assert_eq!(PowerState::Full.as_str(), "Full (AC Connected)");
    assert_eq!(PowerState::from_str(PowerState::NotCharging.as_str()), PowerState::NotCharging);
    assert_eq!(PowerState::from_str(PowerState::Charging.as_str()), PowerState::Charging);
    assert_eq!(PowerState::from_str(PowerState::Discharging.as_str()), PowerState::Unknown);
}

#[test]
fn test_parse_mem_line() {
    let line = "MemTotal:       16307136 kB";
    assert_eq!(parse_mem_line(line), 16307136);

    let bogus = "InvalidLine";
    assert_eq!(parse_mem_line(bogus), 0);
}

#[test]
fn parse_meminfo_computes_used_bytes() {
    let text = "MemTotal:  1000 kB\nMemFree: 5 kB\nMemAvailable: 400 kB\nSwapTotal: 10 kB\nSwapFree: 4 kB\n";
    assert_eq!(parse_meminfo(text), (600 * 1024, 1000 * 1024, 6 * 1024, 10 * 1024));
    assert_eq!(parse_meminfo(""), (0, 0, 0, 0));
    // available larger than total saturates at zero
    assert_eq!(parse_meminfo("MemTotal: 1 kB\r\nMemAvailable: 2 kB\r\n"), (0, 1024, 0, 0));
}

#[test]
fn test_parse_cpu_stat_line() {
    let line = "cpu  53508 0 6772 97024 572 0 265 0 0 0";
    assert!(cpu_stat_line_in_range(line));
    let (work, total) = parse_cpu_stat_line(line).expect("must parse valid cpu line");
    assert_eq!(total, 53508 + 6772 + 97024 + 572 + 265);
    let idle = 97024 + 572;
    assert_eq!(work, total - idle);

    let invalid = "cpu0 100 200";
    assert!(cpu_stat_line_in_range(invalid));
    assert!(parse_cpu_stat_line(invalid).is_none());
}

#[test]
fn cpu_stat_edges() {
    assert_eq!(parse_cpu_stat_line("cpu 1 2 3 4"), Some((6, 10)));
    assert_eq!(parse_cpu_stat_line("cpu 1 2 3"), None);
    assert_eq!(parse_cpu_stat_line("cpu 1 x 2 3 4"), Some((6, 10)));
    let huge = "cpu 18446744073709551615 1 0 0";
    assert!(!cpu_stat_line_in_range(huge));
    assert_eq!(cpu_usage_delta((10, 100), (40, 160)), Some((30, 60)));
    assert_eq!(cpu_usage_delta((0, 0), (40, 160)), None);
    assert_eq!(cpu_usage_delta((50, 100), (40, 100)), None);
    assert_eq!(cpu_usage_delta((50, 100), (40, 120)), Some((0, 20)));
}

#[test]
fn uptime_disk_hostname_sysfs() {
    assert_eq!(parse_uptime_secs("35012.51 120044.10\n"), 35012);
    assert_eq!(parse_uptime_secs("abc 1"), 0);
    assert_eq!(parse_uptime_secs(""), 0);
    assert_eq!(uptime_parts(90061), (1, 1, 1));
    assert_eq!(disk_usage(100, 40, 4096), (60 * 4096, 100 * 4096));
    assert_eq!(disk_usage(u64::MAX, 1, 2), (u64::MAX - 2, u64::MAX));
    assert_eq!(resolve_hostname(Some("  nas\n")), "nas");
    assert_eq!(resolve_hostname(Some(" \n")), "ubuntu-server");
    assert_eq!(resolve_hostname(None), "ubuntu-server");
    assert_eq!(read_sys_u8(Some("85\n")), Some(85));
    assert_eq!(read_sys_u8(Some("+7")), Some(7));
    assert_eq!(read_sys_u8(Some("300")), None);
    assert_eq!(read_sys_u8(Some("-1")), None);
    assert_eq!(read_sys_u8(None), None);
    assert_eq!(read_sys_u64(Some(" 3600000 ")), Some(3600000));
    assert_eq!(read_sys_u64(Some("18446744073709551616")), None);
    assert_eq!(read_sys_u64(Some("18446744073709551615")), Some(u64::MAX));
}

#[test]
fn fan_speed_sources() {
    let mut dump = vec![0u8; 0x72];
    assert_eq!(fan_rpm_from_ec(&dump), None);
    dump[0x70] = 0xD8;
    dump[0x71] = 0x09;
    assert_eq!(fan_rpm_from_ec(&dump), Some(2520));
    dump[0x71] = 0xFF;
    assert_eq!(fan_rpm_from_ec(&dump), None);
    assert_eq!(fan_rpm_from_ec(&[1, 2, 3]), None);
    let readings = vec!["0\n".to_string(), "1800\n".to_string(), "x".to_string(), "2400".to_string()];
    assert_eq!(fan_speed_from_readings(&readings), Some(2400));
    assert_eq!(fan_speed_from_readings(&vec!["0".to_string()]), None);
}

#[test]
fn test_parse_process_line() {
    let line = " 2471 jellyfin 1.2 4.6 344052";
    let proc = parse_process_line(line).expect("must parse valid ps line");
    assert_eq!(proc.pid, 2471);
    assert_eq!(proc.name, "jellyfin");
    let cpu: f64 = proc.cpu_text.parse().unwrap();
    assert!((cpu - 1.2).abs() < 0.01);
    let mem: f64 = proc.mem_text.parse().unwrap();
    assert!((mem - 4.6).abs() < 0.01);
    assert_eq!(proc.mem_bytes, 344052 * 1024);

    let space_line = " 920178 tmux: server 0.5 0.2 6360";
    let proc2 = parse_process_line(space_line).expect("must parse multi-word command name");
    assert_eq!(proc2.name, "tmux: server");
    assert_eq!(proc2.mem_bytes, 6360 * 1024);

    assert!(parse_process_line("invalid").is_none());
}

#[test]
fn process_line_edges() {
    assert!(parse_process_line("  PID COMMAND %CPU %MEM RSS").is_none());
    let p = parse_process_line("7 a  b   c 0.0 0.1 zz").unwrap();
    assert_eq!(p.name, "a b c");
    assert_eq!(p.mem_bytes, 0);
    assert_eq!(p.cpu_text, "0.0");
    assert_eq!(p.mem_text, "0.1");
}

#[test]
fn test_process_sort_and_mem() {
    let mode = ProcessSortMode::Cpu;
    assert_eq!(mode.label(), "CPU");
    assert_eq!(mode.toggle(), ProcessSortMode::Ram);
    assert_eq!(mode.toggle().label(), "RAM");
    assert_eq!(mode.toggle().toggle(), ProcessSortMode::Cpu);

    assert_eq!(mem_unit(350 * 1024 * 1024), MemUnit::MiB);
    assert_eq!(mem_unit(2 * 1024 * 1024 * 1024), MemUnit::GiB);
    assert_eq!(mem_unit(1023), MemUnit::Bytes);
    assert_eq!(mem_unit(1024), MemUnit::KiB);
}

fn dev(kind: &str, state: &str) -> CoolingDevice {
    CoolingDevice { kind: kind.to_string(), cur_state: state.to_string() }
}

#[test]
fn fan_status_texts() {
    assert_eq!(fan_status_text(Some(2520), &vec![dev("Fan", "1\n")]), "2520 RPM");
    assert_eq!(
        fan_status_text(None, &vec![dev("Processor\n", "3\n"), dev("Fan\n", "0\n"), dev("FAN", " 2 \n")]),
        "Auto (Active)"
    );
    assert_eq!(
        fan_status_text(None, &vec![dev("Processor", "3"), dev("acpi_fan", "0"), dev("fan", "x")]),
        "Auto (Silent)"
    );
    assert_eq!(fan_status_text(None, &vec![dev("Processor", "3")]), "");
    assert_eq!(fan_status_text(None, &vec![]), "");
}

#[test]
fn merged_process_lists_have_one_entry_per_pid() {
    let mut r = merge_by_pid(&vec![10, 20, 10], &vec![30, 20, 30, 40]);
    r.sort();
    assert_eq!(r, vec![(false, 0), (false, 3), (true, 1), (true, 2)]);
    assert!(merge_by_pid(&vec![], &vec![]).is_empty());
    let mut only_mem = merge_by_pid(&vec![], &vec![7, 7, 8]);
    only_mem.sort();
    assert_eq!(only_mem, vec![(false, 0), (false, 2)]);
}
