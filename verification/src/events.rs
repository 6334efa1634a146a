//! Activity events whose fields are all text and whole numbers, and the two
//! texts each is shown with: its one-line summary (daemon log and timeline)
//! and its line in the exported report.
use vstd::prelude::*;
use crate::text::{
    chars_of, contains_chars, contains_seq, decimal, push_decimal, push_str, to_lowercase,
    unicode_lowercase,
};

verus! {

/// An entry of the activity chronicle.
pub enum ActivityEvent {
    BatteryStateChanged { from_status: String, to_status: String, capacity: u8 },
    PowerOutageAlert { capacity: u8, estimated_runtime_mins: u64 },
    PowerRestoredAlert { capacity: u8 },
    SshLogin { user: String, client_ip: String },
    SshLogout { user: String, client_ip: String, duration_secs: u64 },
    ContainerStateChanged { name: String, status: String },
    SystemStartup { version: String, hostname: String, uptime_secs: u64 },
    SystemHeartbeat { summary: String },
    GenericNote { message: String },
}

/// The one-line summary of an event.
pub open spec fn summary_spec(e: ActivityEvent) -> Seq<char> {
    match e {
        ActivityEvent::SystemStartup { version, hostname, uptime_secs } => "Daemon v"@ + version@
            + " online on "@ + hostname@ + " (uptime "@ + decimal((uptime_secs / 3600) as nat)
            + "h "@ + decimal(((uptime_secs % 3600) / 60) as nat) + "m)"@,
        ActivityEvent::SystemHeartbeat { summary } => summary@,
        ActivityEvent::BatteryStateChanged { from_status, to_status, capacity } => from_status@
            + " ➔ "@ + to_status@ + " ("@ + decimal(capacity as nat) + "%)"@,
        ActivityEvent::PowerOutageAlert { capacity, estimated_runtime_mins } => "AC Lost! Battery at "@
            + decimal(capacity as nat) + "%, ~"@ + decimal(estimated_runtime_mins as nat)
            + "m left"@,
        ActivityEvent::PowerRestoredAlert { capacity } => "AC Power Restored! Capacity: "@
            + decimal(capacity as nat) + "%"@,
        ActivityEvent::SshLogin { user, client_ip } => "SSH login from "@ + user@ + "@"@
            + client_ip@,
        ActivityEvent::SshLogout { user, client_ip, duration_secs } => "SSH closed: "@ + user@
            + "@"@ + client_ip@ + " (active "@ + decimal((duration_secs / 60) as nat) + "m)"@,
        ActivityEvent::ContainerStateChanged { name, status } => "Container "@ + name@ + ": "@
            + status@,
        ActivityEvent::GenericNote { message } => message@,
    }
}

/// The line of an event in the exported report's timeline; the daemon's own
/// start-up and heartbeat entries are shown with their summary.
pub open spec fn report_line_spec(e: ActivityEvent) -> Seq<char> {
    match e {
        ActivityEvent::BatteryStateChanged { from_status, to_status, capacity } => {
            "⚡ Power state changed: "@ + from_status@ + " ➔ "@ + to_status@ + " ("@ + decimal(
                capacity as nat,
            ) + "%)"@
        },
        ActivityEvent::PowerOutageAlert { capacity, estimated_runtime_mins } => {
            "🚨 AC POWER LOST! Running on UPS ("@ + decimal(capacity as nat)
                + "%). Estimated runtime: "@ + decimal(estimated_runtime_mins as nat) + " mins"@
        },
        ActivityEvent::PowerRestoredAlert { capacity } => {
            "✨ AC Power Restored! ("@ + decimal(capacity as nat) + "%)"@
        },
        ActivityEvent::SshLogin { user, client_ip } => {
            "👤 SSH login: `"@ + user@ + "` from `"@ + client_ip@ + "`"@
        },
        ActivityEvent::SshLogout { user, client_ip, duration_secs } => {
            "👤 SSH session closed: `"@ + user@ + "` from `"@ + client_ip@ + "` (duration: "@
                + decimal((duration_secs / 60) as nat) + "m)"@
        },
        ActivityEvent::ContainerStateChanged { name, status } => {
            "🐳 Container `"@ + name@ + "`: "@ + status@
        },
        ActivityEvent::GenericNote { message } => "ℹ️ "@ + message@,
        ActivityEvent::SystemStartup { .. } => summary_spec(e),
        ActivityEvent::SystemHeartbeat { .. } => summary_spec(e),
    }
}

/// A report line of a power-state change names the old state first: it
/// opens with `⚡ Power state changed: ` and the old state followed by ` ➔ `,
/// and closes with the new state and the capacity in parentheses.
pub open spec fn state_change_line_shape(
    line: Seq<char>,
    from_status: Seq<char>,
    to_status: Seq<char>,
    capacity: u8,
) -> bool {
    let head = "⚡ Power state changed: "@ + from_status + " ➔ "@;
    let tail = to_status + " ("@ + decimal(capacity as nat) + "%)"@;
    &&& line.len() == head.len() + tail.len()
    &&& line.take(head.len() as int) == head
    &&& line.skip(head.len() as int) == tail
}

/// The report line of a power-state change puts the old state before the
/// new one, and ends with the capacity.
pub proof fn lemma_state_change_line(e: ActivityEvent)
    ensures
        match e {
            ActivityEvent::BatteryStateChanged { from_status, to_status, capacity } => {
                state_change_line_shape(report_line_spec(e), from_status@, to_status@, capacity)
            },
            _ => true,
        },
{
    match e {
        ActivityEvent::BatteryStateChanged { from_status, to_status, capacity } => {
            let head = "⚡ Power state changed: "@ + from_status@ + " ➔ "@;
            let tail = to_status@ + " ("@ + decimal(capacity as nat) + "%)"@;
            let line = report_line_spec(e);
            assert(line =~= head + tail);
            assert(line.take(head.len() as int) =~= head);
            assert(line.skip(head.len() as int) =~= tail);
        },
        _ => {},
    }
}

impl ActivityEvent {
    /// The one-line summary of the event, as the daemon logs it and the
    /// timeline shows it.
    pub fn summary(&self) -> (s: String)
        ensures
            s@ == summary_spec(*self),
    {
        let mut s = String::new();
        match self {
            ActivityEvent::SystemStartup { version, hostname, uptime_secs } => {
                push_str(&mut s, "Daemon v");
                push_str(&mut s, version.as_str());
                push_str(&mut s, " online on ");
                push_str(&mut s, hostname.as_str());
                push_str(&mut s, " (uptime ");
                push_decimal(&mut s, *uptime_secs / 3600);
                push_str(&mut s, "h ");
                push_decimal(&mut s, (*uptime_secs % 3600) / 60);
                push_str(&mut s, "m)");
            },
            ActivityEvent::SystemHeartbeat { summary } => {
                push_str(&mut s, summary.as_str());
            },
            ActivityEvent::BatteryStateChanged { from_status, to_status, capacity } => {
                push_str(&mut s, from_status.as_str());
                push_str(&mut s, " ➔ ");
                push_str(&mut s, to_status.as_str());
                push_str(&mut s, " (");
                push_decimal(&mut s, *capacity as u64);
                push_str(&mut s, "%)");
            },
            ActivityEvent::PowerOutageAlert { capacity, estimated_runtime_mins } => {
                push_str(&mut s, "AC Lost! Battery at ");
                push_decimal(&mut s, *capacity as u64);
                push_str(&mut s, "%, ~");
                push_decimal(&mut s, *estimated_runtime_mins);
                push_str(&mut s, "m left");
            },
            ActivityEvent::PowerRestoredAlert { capacity } => {
                push_str(&mut s, "AC Power Restored! Capacity: ");
                push_decimal(&mut s, *capacity as u64);
                push_str(&mut s, "%");
            },
            ActivityEvent::SshLogin { user, client_ip } => {
                push_str(&mut s, "SSH login from ");
                push_str(&mut s, user.as_str());
                push_str(&mut s, "@");
                push_str(&mut s, client_ip.as_str());
            },
            ActivityEvent::SshLogout { user, client_ip, duration_secs } => {
                push_str(&mut s, "SSH closed: ");
                push_str(&mut s, user.as_str());
                push_str(&mut s, "@");
                push_str(&mut s, client_ip.as_str());
                push_str(&mut s, " (active ");
                push_decimal(&mut s, *duration_secs / 60);
                push_str(&mut s, "m)");
            },
            ActivityEvent::ContainerStateChanged { name, status } => {
                push_str(&mut s, "Container ");
                push_str(&mut s, name.as_str());
                push_str(&mut s, ": ");
                push_str(&mut s, status.as_str());
            },
            ActivityEvent::GenericNote { message } => {
                push_str(&mut s, message.as_str());
            },
        }
        s
    }

    /// The line of the event in the exported report.
    pub fn report_line(&self) -> (s: String)
        ensures
            s@ == report_line_spec(*self),
            match *self {
                ActivityEvent::BatteryStateChanged { from_status, to_status, capacity } => {
                    state_change_line_shape(s@, from_status@, to_status@, capacity)
                },
                _ => true,
            },
    {
        proof {
            lemma_state_change_line(*self);
        }
        let mut s = String::new();
        match self {
            ActivityEvent::BatteryStateChanged { from_status, to_status, capacity } => {
                push_str(&mut s, "⚡ Power state changed: ");
                push_str(&mut s, from_status.as_str());
                push_str(&mut s, " ➔ ");
                push_str(&mut s, to_status.as_str());
                push_str(&mut s, " (");
                push_decimal(&mut s, *capacity as u64);
                push_str(&mut s, "%)");
            },
            ActivityEvent::PowerOutageAlert { capacity, estimated_runtime_mins } => {
                push_str(&mut s, "🚨 AC POWER LOST! Running on UPS (");
                push_decimal(&mut s, *capacity as u64);
                push_str(&mut s, "%). Estimated runtime: ");
                push_decimal(&mut s, *estimated_runtime_mins);
                push_str(&mut s, " mins");
            },
            ActivityEvent::PowerRestoredAlert { capacity } => {
                push_str(&mut s, "✨ AC Power Restored! (");
                push_decimal(&mut s, *capacity as u64);
                push_str(&mut s, "%)");
            },
            ActivityEvent::SshLogin { user, client_ip } => {
                push_str(&mut s, "👤 SSH login: `");
                push_str(&mut s, user.as_str());
                push_str(&mut s, "` from `");
                push_str(&mut s, client_ip.as_str());
                push_str(&mut s, "`");
            },
            ActivityEvent::SshLogout { user, client_ip, duration_secs } => {
                push_str(&mut s, "👤 SSH session closed: `");
                push_str(&mut s, user.as_str());
                push_str(&mut s, "` from `");
                push_str(&mut s, client_ip.as_str());
                push_str(&mut s, "` (duration: ");
                push_decimal(&mut s, *duration_secs / 60);
                push_str(&mut s, "m)");
            },
            ActivityEvent::ContainerStateChanged { name, status } => {
                push_str(&mut s, "🐳 Container `");
                push_str(&mut s, name.as_str());
                push_str(&mut s, "`: ");
                push_str(&mut s, status.as_str());
            },
            ActivityEvent::GenericNote { message } => {
                push_str(&mut s, "ℹ️ ");
                push_str(&mut s, message.as_str());
            },
            ActivityEvent::SystemStartup { .. } => {
                return self.summary();
            },
            ActivityEvent::SystemHeartbeat { .. } => {
                return self.summary();
            },
        }
        s
    }
}

/// Whether the timeline shows an event with summary `summary` under the filter
/// `query`: every event when the filter is empty, else those whose summary,
/// lower-cased, holds the lower-cased filter.
pub open spec fn timeline_match_spec(summary: Seq<char>, query: Seq<char>) -> bool {
    query.len() == 0 || contains_seq(unicode_lowercase(summary), unicode_lowercase(query))
}

/// Whether a lower-cased summary holds a lower-cased filter; the step of the
/// timeline filter after both are lower-cased.
pub fn lowered_summary_matches(summary_lower: &str, query_lower: &str) -> (b: bool)
    ensures
        b == contains_seq(summary_lower@, query_lower@),
{
    let h = chars_of(summary_lower);
    let n = chars_of(query_lower);
    contains_chars(&h, &n)
}

/// Whether the timeline shows an event with this summary under the filter
/// `query`.
pub fn timeline_matches(summary: &str, query: &str) -> (b: bool)
    ensures
        b == timeline_match_spec(summary@, query@),
{
    if query.is_empty() {
        return true;
    }
    let s = to_lowercase(summary);
    let q = to_lowercase(query);
    lowered_summary_matches(s.as_str(), q.as_str())
}

} // verus!
