use server_chronicle::base64::to_base64;
use server_chronicle::events::{lowered_summary_matches, timeline_matches, ActivityEvent};
use server_chronicle::navigation::{
    clamp_scroll, handle_key, handle_kill_modal_key, handle_navigation_key, handle_search_key,
    next_process, prev_process, visible_offset, ActiveTab, Key,
    KeyAction, Screen,
};
use server_chronicle::process::ProcessSortMode;
use server_chronicle::power::{
    bracket_label, bracket_progress, bracket_update, capacity_band, capacity_milestone,
    completed_bracket, default_bracket_labels, default_discharge_bracket_labels, derived_power_uw,
    discharge_bracket_label, power_transition, push_sample,
    rate_window, runtime_estimate_card, session_start, BracketProgress, BracketTable,
    CapacityBand, PowerEvent, PowerState, RateSample, SAMPLE_WINDOW,
};
use server_chronicle::thermal::{
    best_sensor, core_temp_index, is_coretemp_name, is_fan_input_name, is_thermal_zone_name,
    sensor_score,
};

#[test]
fn test_to_base64() {
    assert_eq!(to_base64(b""), "");
    assert_eq!(to_base64(b"f"), "Zg==");
    assert_eq!(to_base64(b"fo"), "Zm8=");
    assert_eq!(to_base64(b"foo"), "Zm9v");
    assert_eq!(to_base64(b"Hello World!"), "SGVsbG8gV29ybGQh");
}

#[test]
fn base64_length_and_split() {
    let data: Vec<u8> = (0u8..=255).collect();
    let whole = to_base64(&data);
    assert_eq!(whole.len(), 4 * ((data.len() + 2) / 3));
    let (a, b) = data.split_at(99);
    assert_eq!(whole, format!("{}{}", to_base64(a), to_base64(b)));
    assert_eq!(to_base64(&[0xfb, 0xff]), "+/8=");
}

#[test]
fn power_transitions() {
    assert_eq!(power_transition(PowerState::Full, PowerState::Full, 100, 7), None);
    assert_eq!(
        power_transition(PowerState::Full, PowerState::Discharging, 99, 282),
        Some(PowerEvent::Outage { capacity: 99, estimated_runtime_mins: 282 })
    );
    assert_eq!(
        power_transition(PowerState::Discharging, PowerState::Charging, 40, 0),
        Some(PowerEvent::Restored { capacity: 40 })
    );
    assert_eq!(
        power_transition(PowerState::Charging, PowerState::Full, 100, 0),
        Some(PowerEvent::StateChanged { from: PowerState::Charging, to: PowerState::Full, capacity: 100 })
    );
    assert_eq!(
        power_transition(PowerState::Discharging, PowerState::NotCharging, 60, 0),
        Some(PowerEvent::StateChanged { from: PowerState::Discharging, to: PowerState::NotCharging, capacity: 60 })
    );
}

#[test]
fn brackets() {
    assert!(capacity_milestone(41, 40));
    assert!(!capacity_milestone(40, 40));
    assert!(!capacity_milestone(40, 41));
    assert_eq!(completed_bracket(PowerState::Charging, 40), Some((BracketTable::Charge, 3)));
    assert_eq!(completed_bracket(PowerState::Charging, 0), Some((BracketTable::Charge, 0)));
    assert_eq!(completed_bracket(PowerState::Discharging, 70), Some((BracketTable::Discharge, 2)));
    assert_eq!(completed_bracket(PowerState::Full, 70), None);
    // reaching 40% completes "30% - 40%", the bracket the milestone reports
    let u = bracket_update(PowerState::Charging, 35, 40).unwrap();
    assert_eq!((u.table, u.index, u.completes), (BracketTable::Charge, 3, true));
    assert_eq!(completed_bracket(PowerState::Charging, 40), Some((u.table, u.index)));
    let u = bracket_update(PowerState::Charging, 5, 20).unwrap();
    assert_eq!((u.index, u.completes), (1, true));
    let u = bracket_update(PowerState::Charging, 35, 41).unwrap();
    assert_eq!((u.index, u.completes), (4, false));
    let u = bracket_update(PowerState::Charging, 35, 100).unwrap();
    assert_eq!((u.index, u.completes), (9, true));
    let u = bracket_update(PowerState::Discharging, 100, 95).unwrap();
    assert_eq!((u.table, u.index, u.completes), (BracketTable::Discharge, 0, false));
    let u = bracket_update(PowerState::Discharging, 100, 80).unwrap();
    assert_eq!((u.index, u.completes), (1, true));
    assert_eq!(completed_bracket(PowerState::Discharging, 80), Some((u.table, u.index)));
    let u = bracket_update(PowerState::Discharging, 100, 79).unwrap();
    assert_eq!((u.index, u.completes), (2, false));
    let u = bracket_update(PowerState::Discharging, 100, 0).unwrap();
    assert_eq!((u.index, u.completes), (9, true));
    assert_eq!(bracket_update(PowerState::Charging, 50, 40), None);
    assert_eq!(bracket_label(3), "30% - 40%");
    let labels = default_bracket_labels();
    assert_eq!(labels.len(), 10);
    assert_eq!(labels[0], "0% - 10%");
    assert_eq!(labels[9], "90% - 100%");
    let drain = default_discharge_bracket_labels();
    assert_eq!(drain.len(), 10);
    assert_eq!(drain[0], "100% - 90%");
    assert_eq!(drain[1], "90% - 80%");
    assert_eq!(drain[9], "10% - 0%");
    assert_eq!(discharge_bracket_label(3), "70% - 60%");
    assert_eq!(bracket_label(12), "120% - 130%");
    assert_eq!(bracket_progress(true, 0), BracketProgress::Done);
    assert_eq!(bracket_progress(false, 5), BracketProgress::InProgress);
    assert_eq!(bracket_progress(false, 0), BracketProgress::Pending);
    assert_eq!(capacity_band(51), CapacityBand::High);
    assert_eq!(capacity_band(50), CapacityBand::Medium);
    assert_eq!(capacity_band(20), CapacityBand::Low);
}

#[test]
fn charge_speed_window() {
    let s = |age: i64, cap: u8, state: PowerState| RateSample { age_secs: age, capacity: cap, state };
    let samples = vec![
        s(4000, 50, PowerState::Charging),
        s(1700, 60, PowerState::Charging),
        s(900, 65, PowerState::Discharging),
        s(10, 70, PowerState::Charging),
    ];
    assert_eq!(rate_window(&samples, PowerState::Charging), Some((60, 1700)));
    assert_eq!(rate_window(&samples, PowerState::Discharging), None);
    let old = vec![s(5000, 50, PowerState::Charging), s(4000, 55, PowerState::Charging)];
    assert_eq!(rate_window(&old, PowerState::Charging), Some((50, 5000)));
    let fresh = vec![s(15, 50, PowerState::Charging), s(5, 55, PowerState::Charging)];
    assert_eq!(rate_window(&fresh, PowerState::Charging), None);
}

#[test]
fn event_texts() {
    let e = ActivityEvent::SystemStartup {
        version: "0.3.1".to_string(),
        hostname: "nas".to_string(),
        uptime_secs: 7_500,
    };
    assert_eq!(e.summary(), "Daemon v0.3.1 online on nas (uptime 2h 5m)");
    assert_eq!(e.report_line(), e.summary());
    let e = ActivityEvent::PowerOutageAlert { capacity: 85, estimated_runtime_mins: 120 };
    assert_eq!(e.summary(), "AC Lost! Battery at 85%, ~120m left");
    assert_eq!(
        e.report_line(),
        "🚨 AC POWER LOST! Running on UPS (85%). Estimated runtime: 120 mins"
    );
    let e = ActivityEvent::SshLogout {
        user: "neko".to_string(),
        client_ip: "100.108.154.50".to_string(),
        duration_secs: 3_599,
    };
    assert_eq!(e.summary(), "SSH closed: neko@100.108.154.50 (active 59m)");
    assert_eq!(
        e.report_line(),
        "👤 SSH session closed: `neko` from `100.108.154.50` (duration: 59m)"
    );
    let e = ActivityEvent::BatteryStateChanged {
        from_status: "Charging".to_string(),
        to_status: "Full (AC Connected)".to_string(),
        capacity: 100,
    };
    assert_eq!(e.summary(), "Charging ➔ Full (AC Connected) (100%)");
    let e = ActivityEvent::ContainerStateChanged { name: "qbit".to_string(), status: "stopped".to_string() };
    assert_eq!(e.summary(), "Container qbit: stopped");
    assert_eq!(e.report_line(), "🐳 Container `qbit`: stopped");
    let e = ActivityEvent::GenericNote { message: "system check".to_string() };
    assert_eq!(e.summary(), "system check");
    assert_eq!(e.report_line(), "ℹ️ system check");
    let e = ActivityEvent::PowerRestoredAlert { capacity: 7 };
    assert_eq!(e.summary(), "AC Power Restored! Capacity: 7%");
    assert_eq!(e.report_line(), "✨ AC Power Restored! (7%)");
    let e = ActivityEvent::SshLogin { user: "neko".to_string(), client_ip: "10.0.0.9".to_string() };
    assert_eq!(e.summary(), "SSH login from neko@10.0.0.9");
    assert_eq!(e.report_line(), "👤 SSH login: `neko` from `10.0.0.9`");
}

#[test]
fn navigation() {
    let t = ActiveTab::Telemetry;
    assert_eq!(t.cycled(), ActiveTab::Battery);
    assert_eq!(t.cycled().cycled(), ActiveTab::Chronicle);
    assert_eq!(t.cycled().cycled().cycled(), ActiveTab::Telemetry);
    assert_eq!(ActiveTab::Chronicle.position(), 2);
    assert_eq!(next_process(4, 5), 0);
    assert_eq!(next_process(1, 5), 2);
    assert_eq!(next_process(3, 0), 3);
    assert_eq!(prev_process(0, 5), 4);
    assert_eq!(prev_process(2, 5), 1);
    assert_eq!(prev_process(next_process(2, 5), 5), 2);
    assert_eq!(visible_offset(3, 10), 0);
    assert_eq!(visible_offset(12, 10), 3);
    assert_eq!(clamp_scroll(100, 20, 5), 5);
    assert_eq!(clamp_scroll(100, 20, 95), 80);
    assert_eq!(clamp_scroll(5, 20, 3), 0);
}

#[test]
fn sensors() {
    assert_eq!(sensor_score("x86_pkg_temp\n"), 5);
    assert_eq!(sensor_score("Package id 0"), 5);
    assert_eq!(sensor_score("x86_core"), 4);
    assert_eq!(sensor_score("cpu-thermal"), 3);
    assert_eq!(sensor_score("acpitz"), 2);
    assert_eq!(sensor_score("iwlwifi_1"), 1);
    assert_eq!(best_sensor(&vec![1, 3, 3, 2]), Some(1));
    assert_eq!(best_sensor(&vec![]), None);
    assert_eq!(core_temp_index("temp2_input"), Some(2));
    assert_eq!(core_temp_index("temp1_input"), None);
    assert_eq!(core_temp_index("temp10_input"), Some(10));
    assert_eq!(core_temp_index("temp3_label"), None);
    assert_eq!(core_temp_index("temp_input"), None);
    assert!(is_coretemp_name(" CoreTemp\n"));
    assert!(!is_coretemp_name("k10temp"));
    assert!(is_fan_input_name("fan1_input"));
    assert!(!is_fan_input_name("fan1_label"));
    assert!(is_thermal_zone_name("thermal_zone3"));
    assert!(!is_thermal_zone_name("cooling_device0"));
}

#[test]
fn key_handling() {
    let mut s = Screen {
        active_tab: ActiveTab::Telemetry,
        is_searching: false,
        show_kill_modal: false,
        scroll_offset: 0,
    };
    assert_eq!(handle_key(&mut s, Key::Char('/')), KeyAction::Nothing);
    assert!(!s.is_searching);
    assert_eq!(handle_key(&mut s, Key::Char('s')), KeyAction::ToggleSort);
    assert_eq!(handle_key(&mut s, Key::Char('m')), KeyAction::SetSort(ProcessSortMode::Ram));
    assert_eq!(handle_key(&mut s, Key::Down), KeyAction::NextProcess);
    assert_eq!(handle_key(&mut s, Key::Char('K')), KeyAction::Nothing);
    assert!(s.show_kill_modal);
    assert_eq!(handle_key(&mut s, Key::Char('q')), KeyAction::Nothing);
    assert_eq!(handle_key(&mut s, Key::Char('y')), KeyAction::KillSelected);
    assert!(!s.show_kill_modal);
    assert_eq!(handle_key(&mut s, Key::Char('3')), KeyAction::Nothing);
    assert_eq!(s.active_tab, ActiveTab::Chronicle);
    assert_eq!(handle_key(&mut s, Key::Char('j')), KeyAction::Nothing);
    assert_eq!(handle_key(&mut s, Key::Down), KeyAction::Nothing);
    assert_eq!(s.scroll_offset, 2);
    assert_eq!(handle_key(&mut s, Key::Char('/')), KeyAction::Nothing);
    assert!(s.is_searching);
    assert_eq!(handle_key(&mut s, Key::Char('q')), KeyAction::SearchPush('q'));
    assert_eq!(s.scroll_offset, 0);
    assert_eq!(handle_key(&mut s, Key::Backspace), KeyAction::SearchPop);
    assert_eq!(handle_key(&mut s, Key::Enter), KeyAction::Nothing);
    assert!(!s.is_searching);
    assert_eq!(handle_key(&mut s, Key::Tab), KeyAction::Nothing);
    assert_eq!(s.active_tab, ActiveTab::Telemetry);
    assert_eq!(handle_key(&mut s, Key::Esc), KeyAction::Quit);
}

#[test]
fn sample_window_keeps_newest() {
    let mut v: Vec<u32> = Vec::new();
    for i in 0..(SAMPLE_WINDOW as u32 + 5) {
        push_sample(&mut v, i);
        assert!(v.len() <= SAMPLE_WINDOW);
        assert_eq!(*v.last().unwrap(), i);
    }
    assert_eq!(v.len(), 720);
    assert_eq!(v[0], 5);
    let mut small = vec![1u32, 2];
    push_sample(&mut small, 3);
    assert_eq!(small, vec![1, 2, 3]);
}

#[test]
fn session_start_follows_state() {
    let charging = "Charging".to_string();
    let discharging = "Discharging (On Battery)".to_string();
    assert_eq!(session_start(&charging, 40, Some(100u64), &charging, 45, 200), (40, 100));
    assert_eq!(session_start(&charging, 40, Some(100u64), &discharging, 45, 200), (45, 200));
    assert_eq!(session_start(&charging, 40, None, &charging, 45, 200u64), (45, 200));
}

#[test]
fn derived_power_from_voltage_and_current() {
    assert_eq!(derived_power_uw(12_000_000, Some(1_500_000)), Some(18_000_000));
    assert_eq!(derived_power_uw(999, Some(5_000_000)), Some(0));
    assert_eq!(derived_power_uw(0, Some(1_500_000)), None);
    assert_eq!(derived_power_uw(12_000_000, None), None);
    assert_eq!(derived_power_uw(u64::MAX, Some(u64::MAX)), Some(u64::MAX));
}

#[test]
fn runtime_estimate_texts() {
    let (t, v) = runtime_estimate_card(PowerState::Charging, Some(42));
    assert_eq!(t, " ⏱ Estimated Time to 100% ");
    assert_eq!(v, "42 minutes");
    let (t, v) = runtime_estimate_card(PowerState::Discharging, Some(7));
    assert_eq!(t, " 🚨 Estimated UPS Runtime Left ");
    assert_eq!(v, "7 minutes (to 5%)");
    let (_, v) = runtime_estimate_card(PowerState::Discharging, None);
    assert_eq!(v, "Calculating...");
    let (t, v) = runtime_estimate_card(PowerState::Full, Some(3));
    assert_eq!(t, " ⏱ Status ");
    assert_eq!(v, "Connected to Mains (Full)");
}

#[test]
fn timeline_filter() {
    assert!(timeline_matches("Container plex: running", ""));
    assert!(timeline_matches("Container plex: running", "PLEX"));
    assert!(timeline_matches("SSH login from alice@10.0.0.9", "Alice@10"));
    assert!(!timeline_matches("SSH login from alice@10.0.0.9", "bob"));
    // Lower-casing follows Unicode, not only ASCII.
    assert!(timeline_matches("ÄRGER im Container", "ärger"));
    assert!(timeline_matches("Übersicht", "ÜBER"));
    assert!(!timeline_matches("short", "longer than the text"));
}

#[test]
fn lowered_filter_step() {
    assert!(lowered_summary_matches("container plex: running", "plex"));
    assert!(lowered_summary_matches("anything", ""));
    assert!(!lowered_summary_matches("container plex", "PLEX"));
    assert!(!lowered_summary_matches("ab", "abc"));
}

/// The part of a battery tracker that the library decides: the session start,
/// the sample history and the last reading.
struct Tracker {
    last_capacity: u8,
    last_state: String,
    session_start_cap: u8,
    session_start_time: Option<u64>,
    samples: Vec<(u64, u8)>,
}

impl Tracker {
    fn new() -> Self {
        Tracker {
            last_capacity: 0,
            last_state: "Unknown".to_string(),
            session_start_cap: 0,
            session_start_time: None,
            samples: Vec::new(),
        }
    }

    fn update(&mut self, now: u64, current_cap: u8, state: PowerState) {
        let state_str = state.as_str().to_string();
        let (cap, time) = session_start(
            &self.last_state,
            self.session_start_cap,
            self.session_start_time,
            &state_str,
            current_cap,
            now,
        );
        self.session_start_cap = cap;
        self.session_start_time = Some(time);
        self.last_state = state_str;
        push_sample(&mut self.samples, (now, current_cap));
        self.last_capacity = current_cap;
    }
}

#[test]
fn test_tracker_bracket_updates() {
    let mut tracker = Tracker::new();
    let state = PowerState::Discharging;

    // Start session at 100%
    tracker.update(0, 100, state);
    assert_eq!(tracker.session_start_cap, 100);

    // Simulate 5 minutes passing and drop to 95%
    tracker.update(300, 95, state);
    assert_eq!(tracker.last_capacity, 95);
    assert_eq!(tracker.session_start_cap, 100);
    assert_eq!(tracker.session_start_time, Some(0));
    let u = bracket_update(state, tracker.session_start_cap, 95).unwrap();
    assert_eq!((u.table, u.index, u.completes), (BracketTable::Discharge, 0, false));

    // Test charging transition
    let charge_state = PowerState::Charging;
    tracker.update(310, 95, charge_state);
    assert_eq!(tracker.session_start_cap, 95);
    assert_eq!(tracker.session_start_time, Some(310));
    assert_eq!(tracker.last_state, "Charging");
    assert_eq!(tracker.samples.len(), 3);
}

#[test]
fn mode_key_handlers() {
    let open = Screen {
        active_tab: ActiveTab::Chronicle,
        is_searching: true,
        show_kill_modal: false,
        scroll_offset: 4,
    };
    // the navigation rules alone, with the search already open
    let mut s = open;
    assert_eq!(handle_navigation_key(&mut s, Key::Char('q')), KeyAction::Quit);
    assert_eq!(s, open);
    let mut s = open;
    assert_eq!(handle_navigation_key(&mut s, Key::Char('K')), KeyAction::Nothing);
    assert_eq!(s, open);
    let mut s = Screen { active_tab: ActiveTab::Telemetry, ..open };
    assert_eq!(handle_navigation_key(&mut s, Key::Char('K')), KeyAction::Nothing);
    assert!(s.show_kill_modal && s.is_searching);
    // cycling keeps the open search and scrolls to the top
    let mut s = open;
    s.cycle_tab();
    assert_eq!(s, Screen { active_tab: ActiveTab::Telemetry, scroll_offset: 0, ..open });
    s.cycle_tab();
    s.cycle_tab();
    assert_eq!(s, Screen { scroll_offset: 0, ..open });
    let mut s = open;
    assert_eq!(handle_search_key(&mut s, Key::Char('x')), KeyAction::SearchPush('x'));
    assert_eq!(s.scroll_offset, 0);
    let mut s = Screen { show_kill_modal: true, ..open };
    assert_eq!(handle_kill_modal_key(&mut s, Key::Char('Y')), KeyAction::KillSelected);
    assert!(!s.show_kill_modal);
}
