use server_chronicle::containers::{
    check_container_events, merge_container_rows, parse_docker_ps, parse_docker_stats,
    status_style, ContainerStatus, ContainerTable, StatusStyle,
};
use server_chronicle::downloads::torrent_state_finished;
use server_chronicle::ssh::{
    parse_ss_output, parse_w_output, render_ssh_section, session_key, SshEventKind, SshSession,
    SshTracker,
};

fn cs(name: &str, status: &str) -> ContainerStatus {
    ContainerStatus { name: name.to_string(), status: status.to_string() }
}

fn sorted(events: Vec<(String, String)>) -> Vec<(String, String)> {
    let mut e = events;
    e.sort();
    e
}

#[test]
fn container_table_from_snapshot_keeps_last_entry() {
    let t = ContainerTable::from_snapshot(&vec![
        cs("jellyfin", "Up 2 hours"),
        cs("qbit", "Exited (0) 1 minute ago"),
        cs("jellyfin", "Paused"),
    ]);
    assert_eq!(t.len(), 2);
    assert_eq!(t.state_of("jellyfin"), Some("paused".to_string()));
    assert_eq!(t.state_of("qbit"), Some("exited".to_string()));
    assert_eq!(t.state_of("nginx"), None);
    assert_eq!(ContainerTable::new().len(), 0);
}

#[test]
fn container_events_report_changes_and_removals() {
    let mut known = ContainerTable::from_snapshot(&vec![
        cs("jellyfin", "Up 2 hours"),
        cs("qbit", "Up 1 hour"),
        cs("nginx", "Up 3 days"),
    ]);
    let current = vec![
        cs("jellyfin", "Up 2 hours"),
        cs("qbit", "Exited (137) 5 seconds ago"),
        cs("redis", "Up 1 second"),
    ];
    let events = check_container_events(&mut known, &current);
    let got = sorted(events.into_iter().map(|e| (e.name, e.status)).collect());
    assert_eq!(
        got,
        vec![
            ("nginx".to_string(), "stopped".to_string()),
            ("qbit".to_string(), "running ➔ exited".to_string()),
        ]
    );
    assert_eq!(known.state_of("redis"), Some("running".to_string()));
    assert_eq!(known.state_of("nginx"), None);
    // polling the same containers again is quiet
    let again = check_container_events(&mut known, &current);
    assert!(again.is_empty());
}

#[test]
fn docker_output_parsing_and_merge() {
    let stats = parse_docker_stats("jellyfin\t12.5%\t300MiB / 8GiB\nbad line\nqbit\t 0.4%% \t 20MiB / 8GiB \r\n");
    assert_eq!(stats.len(), 2);
    assert_eq!(stats[0].name, "jellyfin");
    assert_eq!(stats[0].cpu_text, "12.5");
    assert_eq!(stats[1].cpu_text, "0.4");
    assert_eq!(stats[1].memory_usage, "20MiB / 8GiB");
    let ps = parse_docker_ps("jellyfin\tUp 2 hours\nold\tExited (0) 3 days ago\njellyfin\tUp 2 hours\n");
    assert_eq!(ps.len(), 3);
    assert_eq!(ps[1].status, "Exited (0) 3 days ago");
    let rows = merge_container_rows(&stats, &ps);
    assert_eq!(rows.len(), 3);
    assert_eq!(rows[0].cpu_text, Some("12.5".to_string()));
    assert_eq!(rows[0].memory_usage, "300MiB / 8GiB");
    assert_eq!(rows[1].cpu_text, None);
    assert_eq!(rows[1].memory_usage, "0B / 0B");
    // a second row of the same name finds its stats already taken
    assert_eq!(rows[2].cpu_text, None);
    assert_eq!(rows[2].memory_usage, "0B / 0B");
}

#[test]
fn status_styles_and_downloads() {
    assert_eq!(status_style("Up 3 days"), StatusStyle::Running);
    assert_eq!(status_style("running"), StatusStyle::Running);
    assert_eq!(status_style("Exited (1)"), StatusStyle::Stopped);
    assert_eq!(status_style("stopped"), StatusStyle::Stopped);
    assert_eq!(status_style("Up 1 min (Paused)"), StatusStyle::Running);
    assert_eq!(status_style("paused"), StatusStyle::Paused);
    assert_eq!(status_style("restarting"), StatusStyle::Other);
    assert!(torrent_state_finished("stalledUP uploading"));
    assert!(torrent_state_finished("forcedSEED"));
    assert!(!torrent_state_finished("downloading"));
}

#[test]
fn w_and_ss_output_parsing() {
    let w = parse_w_output("neko     pts/0    (100.108.154.50)  10:02    1:00   0.05s  0.01s -bash\nshort line\n");
    assert_eq!(w.len(), 1);
    assert_eq!(w[0].user, "neko");
    assert_eq!(w[0].tty_or_port, "pts/0");
    assert_eq!(w[0].client_ip, "100.108.154.50");
    assert_eq!(w[0].connected_at, "10:02");
    let ss = parse_ss_output("Recv-Q Send-Q Local Address:Port Peer Address:Port\n0 0 10.0.0.2:22 10.0.0.9:51514\n0 0 [::1]:22 [::1]:40000\n0 0 a nocolon\n");
    assert_eq!(ss.len(), 3);
    assert_eq!(ss[0].user, "ssh-client");
    assert_eq!(ss[0].client_ip, "10.0.0.9");
    assert_eq!(ss[0].tty_or_port, "port 51514");
    assert_eq!(ss[0].connected_at, "active");
    assert_eq!(ss[1].client_ip, "[::1]");
    assert_eq!(ss[1].tty_or_port, "port 40000");
    assert_eq!(ss[2].client_ip, "nocolon");
    assert_eq!(ss[2].tty_or_port, "port ");
    assert!(parse_ss_output("0 0 10.0.0.2:22 10.0.0.9:51514").is_empty());
}

fn sess(user: &str, ip: &str) -> SshSession {
    SshSession {
        user: user.to_string(),
        client_ip: ip.to_string(),
        tty_or_port: "pts/0".to_string(),
        connected_at: "10:00".to_string(),
    }
}

#[test]
fn ssh_tracker_logins_and_logouts() {
    assert_eq!(session_key("neko", "10.0.0.9"), "neko:10.0.0.9");
    let mut tracker = SshTracker::from_sessions(&vec![sess("neko", "10.0.0.9")], 1_000);
    assert_eq!(tracker.since_of("neko:10.0.0.9"), Some(1_000));
    let events = tracker.check_ssh_events(&vec![sess("root", "fe80::1")], 181_500);
    assert_eq!(events.len(), 2);
    let login = events.iter().find(|e| e.kind == SshEventKind::Login).unwrap();
    assert_eq!(login.user, "root");
    assert_eq!(login.client_ip, "fe80::1");
    assert_eq!(login.duration_secs, 0);
    let logout = events.iter().find(|e| e.kind == SshEventKind::Logout).unwrap();
    assert_eq!(logout.user, "neko");
    assert_eq!(logout.client_ip, "10.0.0.9");
    assert_eq!(logout.duration_secs, 180);
    assert_eq!(tracker.since_of("root:fe80::1"), Some(181_500));
    assert_eq!(tracker.since_of("neko:10.0.0.9"), None);
    // the same poll again produces nothing, and an IPv6 client keeps its whole address on logout
    assert!(tracker.check_ssh_events(&vec![sess("root", "fe80::1")], 200_000).is_empty());
    let gone = tracker.check_ssh_events(&vec![], 260_000);
    assert_eq!(gone.len(), 1);
    assert_eq!(gone[0].user, "root");
    assert_eq!(gone[0].client_ip, "fe80::1");
    assert_eq!(gone[0].duration_secs, 78);
}

#[test]
fn ssh_report_section_text() {
    let mut doc = String::from("intro\n");
    render_ssh_section(&mut doc, &vec![]);
    assert_eq!(doc, "intro\n## 👤 Active SSH Sessions\n*No active remote SSH sessions.*\n\n");
    let mut doc = String::new();
    let s = SshSession {
        user: "alice".to_string(),
        client_ip: "100.64.0.2".to_string(),
        tty_or_port: "pts/0".to_string(),
        connected_at: "10:00".to_string(),
    };
    render_ssh_section(&mut doc, &vec![s]);
    assert_eq!(doc, "## 👤 Active SSH Sessions\n- User: `alice` from `100.64.0.2` (pts/0)\n\n");
}

#[test]
fn ssh_logout_keeps_tailscale_ipv6_address() {
    let mut tracker = SshTracker::from_sessions(&vec![sess("alice", "fd7a:115c:a1e0::1")], 0);
    let events = tracker.check_ssh_events(&vec![], 60_000);
    assert_eq!(events.len(), 1);
    assert_eq!(events[0].kind, SshEventKind::Logout);
    assert_eq!(events[0].user, "alice");
    assert_eq!(events[0].client_ip, "fd7a:115c:a1e0::1");
    assert_eq!(events[0].duration_secs, 60);
}
