//! Battery power states and the decisions of the UPS monitor: which event a
//! change of state raises, when a capacity milestone is reached, and which
//! ten-percent bracket a charge or discharge fills.
use vstd::prelude::*;
use crate::text::{
    chars_of, decimal, eq_ignore_ascii_case, is_ws, lemma_trim_idempotent, lower, lower_seq,
    push_decimal, push_str, sat_mul, saturating_mul_u64, trim, trim_chars, trim_end, trim_start,
};

verus! {

/// The state that `/sys/class/power_supply/BAT0/status` reports.
#[derive(Debug, Clone, Copy, PartialEq, Eq, Structural)]
pub enum PowerState {
    Charging,
    Discharging,
    Full,
    NotCharging,
    Unknown,
}

/// The state a status text names, compared on the trimmed text without
/// regard to case: `charging`, `discharging`, `full`, `not charging`, or
/// anything else for `Unknown`.
pub open spec fn power_state_of(s: Seq<char>) -> PowerState {
    let t = lower_seq(trim(s));
    if t == "charging"@ {
        PowerState::Charging
    } else if t == "discharging"@ {
        PowerState::Discharging
    } else if t == "full"@ {
        PowerState::Full
    } else if t == "not charging"@ {
        PowerState::NotCharging
    } else {
        PowerState::Unknown
    }
}

/// The text shown for a state.
pub open spec fn power_state_label(p: PowerState) -> Seq<char> {
    match p {
        PowerState::Charging => "Charging"@,
        PowerState::Discharging => "Discharging (On Battery)"@,
        PowerState::Full => "Full (AC Connected)"@,
        PowerState::NotCharging => "Not Charging"@,
        PowerState::Unknown => "Unknown"@,
    }
}

impl PowerState {
    /// Reads a battery status text.
    pub fn from_str(s: &str) -> (r: PowerState)
        ensures
            r == power_state_of(s@),
    {
        let v = chars_of(s);
        let t = trim_chars(&v);
        let charging = chars_of("charging");
        let discharging = chars_of("discharging");
        let full = chars_of("full");
        let not_charging = chars_of("not charging");
        if eq_ignore_ascii_case(&t, &charging) {
            PowerState::Charging
        } else if eq_ignore_ascii_case(&t, &discharging) {
            PowerState::Discharging
        } else if eq_ignore_ascii_case(&t, &full) {
            PowerState::Full
        } else if eq_ignore_ascii_case(&t, &not_charging) {
            PowerState::NotCharging
        } else {
            PowerState::Unknown
        }
    }

    /// The text shown for the state.
    pub fn as_str(&self) -> (r: &'static str)
        ensures
            r@ == power_state_label(*self),
    {
        match self {
            PowerState::Charging => "Charging",
            PowerState::Discharging => "Discharging (On Battery)",
            PowerState::Full => "Full (AC Connected)",
            PowerState::NotCharging => "Not Charging",
            PowerState::Unknown => "Unknown",
        }
    }
}

/// What a change of power state is reported as.
#[derive(Debug, Clone, Copy, PartialEq, Eq, Structural)]
pub enum PowerEvent {
    /// The battery started discharging: mains power is lost.
    Outage { capacity: u8, estimated_runtime_mins: u64 },
    /// The battery was discharging and now charges or is full again.
    Restored { capacity: u8 },
    /// Any other change of state.
    StateChanged { from: PowerState, to: PowerState, capacity: u8 },
}

/// The event for going from state `last` to `current` at `capacity` percent,
/// with `estimated_runtime_mins` as the runtime estimate for an outage.
pub open spec fn power_transition_spec(
    last: PowerState,
    current: PowerState,
    capacity: u8,
    estimated_runtime_mins: u64,
) -> Option<PowerEvent> {
    if current == last {
        None
    } else if current == PowerState::Discharging {
        Some(PowerEvent::Outage { capacity, estimated_runtime_mins })
    } else if last == PowerState::Discharging && (current == PowerState::Charging || current
        == PowerState::Full) {
        Some(PowerEvent::Restored { capacity })
    } else {
        Some(PowerEvent::StateChanged { from: last, to: current, capacity })
    }
}

/// Decides the event that a change from state `last` to `current` raises:
/// none when the state is unchanged, an outage when the battery starts
/// discharging, a restoration when it leaves discharging for charging or
/// full, and a plain state change otherwise.
pub fn power_transition(
    last: PowerState,
    current: PowerState,
    capacity: u8,
    estimated_runtime_mins: u64,
) -> (r: Option<PowerEvent>)
    ensures
        r == power_transition_spec(last, current, capacity, estimated_runtime_mins),
        last == PowerState::Discharging && (current == PowerState::Charging || current
            == PowerState::Full) ==> r == Some(PowerEvent::Restored { capacity }),
        current == PowerState::Discharging && last != current ==> r == Some(
            PowerEvent::Outage { capacity, estimated_runtime_mins },
        ),
{
    if current == last {
        None
    } else if current == PowerState::Discharging {
        Some(PowerEvent::Outage { capacity, estimated_runtime_mins })
    } else if last == PowerState::Discharging && (current == PowerState::Charging || current
        == PowerState::Full) {
        Some(PowerEvent::Restored { capacity })
    } else {
        Some(PowerEvent::StateChanged { from: last, to: current, capacity })
    }
}

/// The capacity moved from `last_capacity` to a multiple of ten percent
/// (which includes 0 and 100).
pub fn capacity_milestone(last_capacity: u8, capacity: u8) -> (b: bool)
    ensures
        b == (capacity != last_capacity && (capacity % 10 == 0 || capacity == 100 || capacity
            == 0)),
{
    capacity != last_capacity && (capacity % 10 == 0 || capacity == 100 || capacity == 0)
}

/// The two bracket tables: ten brackets of charging and ten of discharging.
#[derive(Debug, Clone, Copy, PartialEq, Eq, Structural)]
pub enum BracketTable {
    Charge,
    Discharge,
}

/// The bracket whose completion a milestone at `capacity` percent reports:
/// while charging, the bracket just below the capacity; while discharging,
/// the bracket of the drop from 100% just completed. Other states report none.
pub open spec fn completed_bracket_spec(state: PowerState, capacity: u8) -> Option<
    (BracketTable, usize),
> {
    if state == PowerState::Charging {
        let b = capacity / 10;
        Some(
            (
                BracketTable::Charge,
                if b >= 1 {
                    (b - 1) as usize
                } else {
                    0
                },
            ),
        )
    } else if state == PowerState::Discharging {
        let drop: int = if capacity <= 100 {
            100 - capacity
        } else {
            0
        };
        let b = drop / 10;
        Some(
            (
                BracketTable::Discharge,
                if b >= 1 {
                    (b - 1) as usize
                } else {
                    0
                },
            ),
        )
    } else {
        None
    }
}

/// Picks the bracket that a capacity milestone completes.
pub fn completed_bracket(state: PowerState, capacity: u8) -> (r: Option<(BracketTable, usize)>)
    ensures
        r == completed_bracket_spec(state, capacity),
{
    if state == PowerState::Charging {
        let b = (capacity / 10) as usize;
        Some((BracketTable::Charge, b.saturating_sub(1)))
    } else if state == PowerState::Discharging {
        let drop = 100usize.saturating_sub(capacity as usize);
        Some((BracketTable::Discharge, (drop / 10).saturating_sub(1)))
    } else {
        None
    }
}

/// How a sample at `current_cap` updates the bracket tables.
#[derive(Debug, Clone, Copy, PartialEq, Eq, Structural)]
pub struct BracketUpdate {
    pub table: BracketTable,
    pub index: usize,
    pub completes: bool,
}

/// The ten-percent bracket a capacity falls in, counted in steps of ten from
/// the bottom: a multiple of ten closes the bracket below it (so `20` belongs
/// to the bracket from 10 to 20, and `100` to the ninth), any other capacity
/// lies inside the bracket of its tens; at most the ninth.
pub open spec fn bracket_of(level: int) -> usize {
    let b = if level > 0 && level % 10 == 0 {
        level / 10 - 1
    } else {
        level / 10
    };
    if b <= 9 {
        b as usize
    } else {
        9
    }
}

/// The bracket that a sample updates: while charging above the session's
/// start, the bracket that the capacity has reached, completed when the
/// capacity is a multiple of ten; while discharging below the start, the
/// bracket of the drop from 100% reached so far, completed when the drop is a
/// positive multiple of ten.
pub open spec fn bracket_update_spec(state: PowerState, session_start_cap: u8, current_cap: u8) -> Option<
    BracketUpdate,
> {
    if state == PowerState::Charging && current_cap > session_start_cap {
        Some(
            BracketUpdate {
                table: BracketTable::Charge,
                index: bracket_of(current_cap as int),
                completes: current_cap % 10 == 0,
            },
        )
    } else if state == PowerState::Discharging && current_cap < session_start_cap {
        let drop: int = if current_cap <= 100 {
            100 - current_cap
        } else {
            0
        };
        Some(
            BracketUpdate {
                table: BracketTable::Discharge,
                index: bracket_of(drop),
                completes: drop > 0 && drop % 10 == 0,
            },
        )
    } else {
        None
    }
}

fn bracket_index(level: u8) -> (r: usize)
    ensures
        r == bracket_of(level as int),
{
    let b: u8 = if level > 0 && level % 10 == 0 {
        level / 10 - 1
    } else {
        level / 10
    };
    if b <= 9 {
        b as usize
    } else {
        9
    }
}

/// Decides which bracket a battery sample updates, and whether it completes it.
pub fn bracket_update(state: PowerState, session_start_cap: u8, current_cap: u8) -> (r: Option<
    BracketUpdate,
>)
    ensures
        r == bracket_update_spec(state, session_start_cap, current_cap),
        r matches Some(u) ==> u.index < 10,
{
    if state == PowerState::Charging && current_cap > session_start_cap {
        Some(
            BracketUpdate {
                table: BracketTable::Charge,
                index: bracket_index(current_cap),
                completes: current_cap % 10 == 0,
            },
        )
    } else if state == PowerState::Discharging && current_cap < session_start_cap {
        let drop: u8 = if current_cap <= 100 {
            100 - current_cap
        } else {
            0
        };
        Some(
            BracketUpdate {
                table: BracketTable::Discharge,
                index: bracket_index(drop),
                completes: drop > 0 && drop % 10 == 0,
            },
        )
    } else {
        None
    }
}

/// A sample that completes a bracket completes the one that the capacity
/// milestone at the same reading reports as just finished.
pub proof fn lemma_completion_matches_milestone(
    state: PowerState,
    session_start_cap: u8,
    current_cap: u8,
)
    requires
        current_cap <= 100,
    ensures
        match bracket_update_spec(state, session_start_cap, current_cap) {
            Some(u) => u.completes ==> completed_bracket_spec(state, current_cap) == Some(
                (u.table, u.index),
            ),
            None => true,
        },
{
}

/// The label of charge bracket `i`: `"<10i>% - <10(i+1)>%"`.
pub open spec fn bracket_label_spec(i: nat) -> Seq<char> {
    decimal(i * 10) + "% - "@ + decimal((i + 1) * 10) + "%"@
}

/// The label of charge bracket `i`, such as `"30% - 40%"` for `i == 3`.
pub fn bracket_label(i: u64) -> (s: String)
    requires
        i < u64::MAX / 10,
    ensures
        s@ == bracket_label_spec(i as nat),
{
    let mut s = String::new();
    push_decimal(&mut s, i * 10);
    push_str(&mut s, "% - ");
    push_decimal(&mut s, (i + 1) * 10);
    push_str(&mut s, "%");
    s
}

/// The labels of the ten charge brackets, `"0% - 10%"` to `"90% - 100%"`.
pub fn default_bracket_labels() -> (labels: Vec<String>)
    ensures
        labels.len() == 10,
        forall|i: int| 0 <= i < 10 ==> (#[trigger] labels@[i])@ == bracket_label_spec(i as nat),
{
    let mut labels: Vec<String> = Vec::new();
    let mut i: u64 = 0;
    while i < 10
        invariant
            i <= 10,
            labels.len() == i,
            forall|j: int| 0 <= j < i ==> (#[trigger] labels@[j])@ == bracket_label_spec(j as nat),
        decreases 10 - i,
    {
        labels.push(bracket_label(i));
        i = i + 1;
    }
    labels
}

/// The label of discharge bracket `i`, counted from a full battery:
/// `"<100-10i>% - <90-10i>%"`.
pub open spec fn discharge_bracket_label_spec(i: nat) -> Seq<char> {
    decimal((100 - i * 10) as nat) + "% - "@ + decimal((90 - i * 10) as nat) + "%"@
}

/// The label of discharge bracket `i`, such as `"70% - 60%"` for `i == 3`.
pub fn discharge_bracket_label(i: u64) -> (s: String)
    requires
        i < 10,
    ensures
        s@ == discharge_bracket_label_spec(i as nat),
{
    let mut s = String::new();
    push_decimal(&mut s, 100 - i * 10);
    push_str(&mut s, "% - ");
    push_decimal(&mut s, 90 - i * 10);
    push_str(&mut s, "%");
    s
}

/// The labels of the ten discharge brackets, `"100% - 90%"` to `"10% - 0%"`.
pub fn default_discharge_bracket_labels() -> (labels: Vec<String>)
    ensures
        labels.len() == 10,
        forall|i: int|
            0 <= i < 10 ==> (#[trigger] labels@[i])@ == discharge_bracket_label_spec(i as nat),
{
    let mut labels: Vec<String> = Vec::new();
    let mut i: u64 = 0;
    while i < 10
        invariant
            i <= 10,
            labels.len() == i,
            forall|j: int|
                0 <= j < i ==> (#[trigger] labels@[j])@ == discharge_bracket_label_spec(j as nat),
        decreases 10 - i,
    {
        labels.push(discharge_bracket_label(i));
        i = i + 1;
    }
    labels
}

/// Surrounding whitespace does not change which state a status text names.
pub proof fn lemma_status_ignores_surrounding_space(s: Seq<char>)
    ensures
        power_state_of(trim(s)) == power_state_of(s),
{
    lemma_trim_idempotent(s);
}

/// A text without surrounding whitespace is its own trimmed form.
proof fn lemma_trim_plain(s: Seq<char>)
    requires
        s.len() > 0,
        !is_ws(s[0]),
        !is_ws(s.last()),
    ensures
        trim(s) == s,
{
    assert(trim_start(s) == s);
    assert(trim_end(s) == s);
}

/// Reading back the text shown for `Charging`, `Not Charging` or `Unknown`
/// gives the same state. (The texts shown for the other two states carry a
/// note in parentheses and read back as `Unknown`.)
pub proof fn lemma_label_reads_back(p: PowerState)
    requires
        p == PowerState::Charging || p == PowerState::NotCharging || p == PowerState::Unknown,
    ensures
        power_state_of(power_state_label(p)) == p,
{
    reveal_strlit("Charging");
    reveal_strlit("Not Charging");
    reveal_strlit("Unknown");
    reveal_strlit("charging");
    reveal_strlit("discharging");
    reveal_strlit("full");
    reveal_strlit("not charging");
    let l = power_state_label(p);
    lemma_trim_plain(l);
    let t = lower_seq(l);
    if p == PowerState::Charging {
        assert(t =~= "charging"@);
    } else if p == PowerState::NotCharging {
        assert(t =~= "not charging"@);
        assert(t[0] != "charging"@[0]);
        assert(t.len() != "discharging"@.len());
        assert(t.len() != "full"@.len());
    } else {
        assert(t =~= seq!['u', 'n', 'k', 'n', 'o', 'w', 'n']);
        assert(t[0] != "charging"@[0]);
        assert(t[0] != "discharging"@[0]);
        assert(t[0] != "full"@[0]);
        assert(t[0] != "not charging"@[0]);
    }
}

/// A state change always raises exactly one event, and an unchanged state none.
pub proof fn lemma_transition_iff_changed(
    last: PowerState,
    current: PowerState,
    capacity: u8,
    estimated_runtime_mins: u64,
)
    ensures
        power_transition_spec(last, current, capacity, estimated_runtime_mins) is None <==> last
            == current,
        current == PowerState::Discharging && last != current ==> power_transition_spec(
            last,
            current,
            capacity,
            estimated_runtime_mins,
        ) == Some(PowerEvent::Outage { capacity, estimated_runtime_mins }),
{
}

/// Mains power coming back is reported as a restoration: going from
/// discharging to charging or full always raises `Restored` with the current
/// capacity, whatever the runtime estimate.
pub proof fn lemma_restored_after_outage(
    current: PowerState,
    capacity: u8,
    estimated_runtime_mins: u64,
)
    requires
        current == PowerState::Charging || current == PowerState::Full,
    ensures
        power_transition_spec(PowerState::Discharging, current, capacity, estimated_runtime_mins)
            == Some(PowerEvent::Restored { capacity }),
{
}

/// Any other change that is neither an outage nor a restoration is reported
/// as a state change from the old state to the new one.
pub proof fn lemma_other_changes_reported(
    last: PowerState,
    current: PowerState,
    capacity: u8,
    estimated_runtime_mins: u64,
)
    requires
        last != current,
        current != PowerState::Discharging,
        last != PowerState::Discharging,
    ensures
        power_transition_spec(last, current, capacity, estimated_runtime_mins) == Some(
            PowerEvent::StateChanged { from: last, to: current, capacity },
        ),
{
}

/// A battery sample for the charge-speed estimate: how many seconds before
/// now it was taken, the capacity then, and the state then.
#[derive(Debug, Clone, Copy, PartialEq, Eq, Structural)]
pub struct RateSample {
    pub age_secs: i64,
    pub capacity: u8,
    pub state: PowerState,
}

/// The samples taken in state `state`, in order.
pub open spec fn samples_in_state(s: Seq<RateSample>, state: PowerState) -> Seq<RateSample>
    decreases s.len(),
{
    if s.len() == 0 {
        seq![]
    } else {
        let p = samples_in_state(s.drop_last(), state);
        if s.last().state == state {
            p.push(s.last())
        } else {
            p
        }
    }
}

/// The first sample at most 30 whole minutes old (younger than 1860 s).
pub open spec fn first_recent(s: Seq<RateSample>) -> Option<int>
    decreases s.len(),
{
    if s.len() == 0 {
        None
    } else {
        match first_recent(s.drop_last()) {
            Some(i) => Some(i),
            None => if s.last().age_secs < 1860 {
                Some(s.len() - 1)
            } else {
                None
            },
        }
    }
}

/// The window over which the current charge speed is measured: among at
/// least two samples in the current state (out of at least two samples in
/// all), the oldest one taken within the last 30 minutes, or the oldest one
/// in that state if none is; its capacity and age in seconds (0 if in the
/// future). `None` when there are too few samples or the window is shorter
/// than 20 s.
pub open spec fn rate_window_spec(samples: Seq<RateSample>, state: PowerState) -> Option<(u8, u64)> {
    let f = samples_in_state(samples, state);
    if samples.len() < 2 || f.len() < 2 {
        None
    } else {
        let oldest = match first_recent(f) {
            Some(i) => f[i],
            None => f[0],
        };
        let secs: int = if oldest.age_secs >= 0 {
            oldest.age_secs as int
        } else {
            0
        };
        if secs < 20 {
            None
        } else {
            Some((oldest.capacity, secs as u64))
        }
    }
}

/// Finds the start of the window over which the current charge speed is
/// measured: the capacity then and the seconds since.
pub fn rate_window(samples: &Vec<RateSample>, state: PowerState) -> (r: Option<(u8, u64)>)
    ensures
        r == rate_window_spec(samples@, state),
{
    if samples.len() < 2 {
        return None;
    }
    let mut f: Vec<RateSample> = Vec::new();
    let mut i: usize = 0;
    assert(samples@.take(0) =~= Seq::<RateSample>::empty());
    while i < samples.len()
        invariant
            i <= samples.len(),
            f@ == samples_in_state(samples@.take(i as int), state),
        decreases samples.len() - i,
    {
        assert(samples@.take(i + 1).drop_last() =~= samples@.take(i as int));
        if samples[i].state == state {
            f.push(samples[i]);
        }
        i = i + 1;
    }
    assert(samples@.take(samples.len() as int) =~= samples@);
    if f.len() < 2 {
        return None;
    }
    let mut found: Option<usize> = None;
    let mut j: usize = 0;
    assert(f@.take(0) =~= Seq::<RateSample>::empty());
    while j < f.len()
        invariant
            j <= f.len(),
            match found {
                Some(k) => first_recent(f@.take(j as int)) == Some(k as int) && k < j,
                None => first_recent(f@.take(j as int)) is None,
            },
        decreases f.len() - j,
    {
        assert(f@.take(j + 1).drop_last() =~= f@.take(j as int));
        if found.is_none() && f[j].age_secs < 1860 {
            found = Some(j);
        }
        j = j + 1;
    }
    assert(f@.take(f.len() as int) =~= f@);
    let oldest = match found {
        Some(k) => f[k],
        None => f[0],
    };
    let secs: u64 = if oldest.age_secs >= 0 {
        oldest.age_secs as u64
    } else {
        0
    };
    if secs < 20 {
        None
    } else {
        Some((oldest.capacity, secs))
    }
}

/// How full the battery looks: above half, above a fifth, or low.
#[derive(Debug, Clone, Copy, PartialEq, Eq, Structural)]
pub enum CapacityBand {
    High,
    Medium,
    Low,
}

/// The band of a capacity: `High` above 50%, `Medium` above 20%, else `Low`.
pub fn capacity_band(capacity: u8) -> (r: CapacityBand)
    ensures
        r == (if capacity > 50 {
            CapacityBand::High
        } else if capacity > 20 {
            CapacityBand::Medium
        } else {
            CapacityBand::Low
        }),
{
    if capacity > 50 {
        CapacityBand::High
    } else if capacity > 20 {
        CapacityBand::Medium
    } else {
        CapacityBand::Low
    }
}

/// How far a bracket is filled.
#[derive(Debug, Clone, Copy, PartialEq, Eq, Structural)]
pub enum BracketProgress {
    Done,
    InProgress,
    Pending,
}

/// A bracket is done once completed, in progress once it has a duration,
/// and pending before.
pub fn bracket_progress(completed: bool, duration_secs: u64) -> (r: BracketProgress)
    ensures
        r == (if completed {
            BracketProgress::Done
        } else if duration_secs > 0 {
            BracketProgress::InProgress
        } else {
            BracketProgress::Pending
        }),
{
    if completed {
        BracketProgress::Done
    } else if duration_secs > 0 {
        BracketProgress::InProgress
    } else {
        BracketProgress::Pending
    }
}

/// How many of the newest battery samples are kept for the charge-speed
/// estimate: one hour at one sample every five seconds.
pub const SAMPLE_WINDOW: usize = 720;

/// The samples after `x` is recorded: it is appended, and the oldest is
/// dropped when more than `SAMPLE_WINDOW` are then held.
pub open spec fn samples_after_push<T>(s: Seq<T>, x: T) -> Seq<T> {
    let t = s.push(x);
    if t.len() > SAMPLE_WINDOW {
        t.drop_first()
    } else {
        t
    }
}

/// Records a battery sample in the rolling window.
pub fn push_sample<T>(samples: &mut Vec<T>, sample: T)
    ensures
        final(samples)@ == samples_after_push(old(samples)@, sample),
{
    samples.push(sample);
    if samples.len() > SAMPLE_WINDOW {
        samples.remove(0);
        assert(samples@ =~= samples_after_push(old(samples)@, sample));
    }
}

/// A window that holds at most `SAMPLE_WINDOW` samples keeps doing so, and
/// its newest sample is the one just recorded.
pub proof fn lemma_sample_window_bounded<T>(s: Seq<T>, x: T)
    requires
        s.len() <= SAMPLE_WINDOW,
    ensures
        samples_after_push(s, x).len() <= SAMPLE_WINDOW,
        samples_after_push(s, x).last() == x,
        s.len() < SAMPLE_WINDOW ==> samples_after_push(s, x) == s.push(x),
{
}

/// Where the current charge or drain session starts after a reading in state
/// `state` at `capacity` percent taken at `now`: a change of state, or no
/// session yet, starts a new one at the reading; otherwise the session that
/// started at `start_capacity` and `start_time` goes on.
pub open spec fn session_start_spec<T>(
    last_state: Seq<char>,
    start_capacity: u8,
    start_time: Option<T>,
    state: Seq<char>,
    capacity: u8,
    now: T,
) -> (u8, T) {
    if last_state == state && start_time is Some {
        (start_capacity, start_time->0)
    } else {
        (capacity, now)
    }
}

/// The start (capacity and time) of the charge or drain session after a
/// reading.
pub fn session_start<T: Copy>(
    last_state: &String,
    start_capacity: u8,
    start_time: Option<T>,
    state: &String,
    capacity: u8,
    now: T,
) -> (r: (u8, T))
    ensures
        r == session_start_spec(last_state@, start_capacity, start_time, state@, capacity, now),
{
    let same = *last_state == *state;
    match start_time {
        Some(t) => {
            if same {
                (start_capacity, t)
            } else {
                (capacity, now)
            }
        },
        None => (capacity, now),
    }
}

/// While the state stays the same, later readings leave the session's start
/// where the first one put it.
pub proof fn lemma_session_continues<T>(
    last_state: Seq<char>,
    start_capacity: u8,
    start_time: Option<T>,
    state: Seq<char>,
    capacity: u8,
    now: T,
    later_capacity: u8,
    later: T,
)
    ensures
        ({
            let (c, t) = session_start_spec(
                last_state,
                start_capacity,
                start_time,
                state,
                capacity,
                now,
            );
            session_start_spec(state, c, Some(t), state, later_capacity, later) == (c, t)
        }),
{
}

/// The power draw worked out from voltage and current, for a battery that
/// does not report it: (µV / 1000) × (µA / 1000) in µW, saturating; none
/// without a voltage or without a current reading.
pub open spec fn derived_power_spec(voltage_uv: u64, current_ua: Option<u64>) -> Option<u64> {
    if voltage_uv > 0 && current_ua is Some {
        Some(sat_mul(voltage_uv / 1000, current_ua->0 / 1000))
    } else {
        None
    }
}

/// Works out the power draw from voltage and current.
pub fn derived_power_uw(voltage_uv: u64, current_ua: Option<u64>) -> (r: Option<u64>)
    ensures
        r == derived_power_spec(voltage_uv, current_ua),
{
    if voltage_uv == 0 {
        return None;
    }
    match current_ua {
        Some(c) => Some(saturating_mul_u64(voltage_uv / 1000, c / 1000)),
        None => None,
    }
}

/// The title of the runtime-estimate card.
pub open spec fn estimate_title(state: PowerState) -> Seq<char> {
    match state {
        PowerState::Charging => " ⏱ Estimated Time to 100% "@,
        PowerState::Discharging => " 🚨 Estimated UPS Runtime Left "@,
        _ => " ⏱ Status "@,
    }
}

/// The text of the runtime-estimate card: the minutes to full while charging,
/// the minutes of UPS runtime left (down to 5%) while discharging, or that the
/// mains are connected.
pub open spec fn estimate_text(state: PowerState, minutes_left: Option<u64>) -> Seq<char> {
    match state {
        PowerState::Charging => match minutes_left {
            Some(m) => decimal(m as nat) + " minutes"@,
            None => "Calculating..."@,
        },
        PowerState::Discharging => match minutes_left {
            Some(m) => decimal(m as nat) + " minutes (to 5%)"@,
            None => "Calculating..."@,
        },
        _ => "Connected to Mains (Full)"@,
    }
}

/// While charging or discharging, the card says `Calculating...` until an
/// estimate exists, and then begins with the estimated minutes; in the other
/// states it says the mains are connected, estimate or not.
pub proof fn lemma_estimate_text(state: PowerState, minutes_left: Option<u64>)
    ensures
        (state == PowerState::Charging || state == PowerState::Discharging) && minutes_left is None
            ==> estimate_text(state, minutes_left) == "Calculating..."@,
        (state == PowerState::Charging || state == PowerState::Discharging) && minutes_left is Some
            ==> estimate_text(state, minutes_left).take(
            decimal(minutes_left->0 as nat).len() as int,
        ) == decimal(minutes_left->0 as nat),
        state != PowerState::Charging && state != PowerState::Discharging ==> estimate_text(
            state,
            minutes_left,
        ) == "Connected to Mains (Full)"@,
{
    if let Some(m) = minutes_left {
        let d = decimal(m as nat);
        if state == PowerState::Charging {
            assert((d + " minutes"@).take(d.len() as int) =~= d);
        } else if state == PowerState::Discharging {
            assert((d + " minutes (to 5%)"@).take(d.len() as int) =~= d);
        }
    }
}

/// The title and text of the runtime-estimate card.
pub fn runtime_estimate_card(state: PowerState, minutes_left: Option<u64>) -> (r: (
    &'static str,
    String,
))
    ensures
        r.0@ == estimate_title(state),
        r.1@ == estimate_text(state, minutes_left),
        (state == PowerState::Charging || state == PowerState::Discharging) && minutes_left is None
            ==> r.1@ == "Calculating..."@,
        (state == PowerState::Charging || state == PowerState::Discharging) && minutes_left is Some
            ==> r.1@.take(decimal(minutes_left->0 as nat).len() as int) == decimal(
            minutes_left->0 as nat,
        ),
        state != PowerState::Charging && state != PowerState::Discharging ==> r.1@
            == "Connected to Mains (Full)"@,
{
    proof {
        lemma_estimate_text(state, minutes_left);
    }
    let mut text = String::new();
    match state {
        PowerState::Charging => {
            match minutes_left {
                Some(m) => {
                    push_decimal(&mut text, m);
                    push_str(&mut text, " minutes");
                },
                None => push_str(&mut text, "Calculating..."),
            }
            (" ⏱ Estimated Time to 100% ", text)
        },
        PowerState::Discharging => {
            match minutes_left {
                Some(m) => {
                    push_decimal(&mut text, m);
                    push_str(&mut text, " minutes (to 5%)");
                },
                None => push_str(&mut text, "Calculating..."),
            }
            (" 🚨 Estimated UPS Runtime Left ", text)
        },
        _ => {
            push_str(&mut text, "Connected to Mains (Full)");
            (" ⏱ Status ", text)
        },
    }
}

} // verus!
