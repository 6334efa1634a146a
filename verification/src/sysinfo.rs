//! Host telemetry read from `/proc`, `/sys` and system calls: memory, CPU
//! time counters, uptime, disk space, host name, sysfs values and fan speed.
use vstd::prelude::*;
use crate::text::{
    chars_of, contains_ci, contains_ignore_ascii_case, decimal, push_decimal, parse_u32_chars, parse_u32_spec, parse_u64_chars, parse_u64_spec, parse_u8_chars,
    parse_u8_spec, push_str, sat_mul, sat_sub, saturating_mul_u64, split_char, split_lines,
    split_lines_of, split_on, split_ws, starts_with, starts_with_chars, string_of, tokens, trim,
    trim_chars, views,
};

verus! {

/// The value of a `/proc/meminfo` line such as `"MemTotal:  16307136 kB"`:
/// its second whitespace-separated field as a number, or 0.
pub open spec fn mem_line_value(line: Seq<char>) -> u64 {
    let t = tokens(line);
    if t.len() >= 2 {
        match parse_u64_spec(t[1]) {
            Some(x) => x,
            None => 0,
        }
    } else {
        0
    }
}

fn mem_line_value_chars(v: &Vec<char>) -> (r: u64)
    ensures
        r == mem_line_value(v@),
{
    let t = split_ws(v);
    if t.len() >= 2 {
        assert(views(t@)[1] == t@[1]@);
        match parse_u64_chars(&t[1]) {
            Some(x) => x,
            None => 0,
        }
    } else {
        0
    }
}

/// Reads the number in a `/proc/meminfo` line (in kB), 0 when there is none.
pub fn parse_mem_line(line: &str) -> (r: u64)
    ensures
        r == mem_line_value(line@),
{
    let v = chars_of(line);
    mem_line_value_chars(&v)
}

/// The kB values of `MemTotal`, `MemAvailable`, `SwapTotal` and `SwapFree`
/// in `/proc/meminfo` lines; the last line of each name counts, and a name
/// that no line holds gives 0.
pub open spec fn meminfo_fields(lines: Seq<Seq<char>>) -> (u64, u64, u64, u64)
    decreases lines.len(),
{
    if lines.len() == 0 {
        (0, 0, 0, 0)
    } else {
        let p = meminfo_fields(lines.drop_last());
        let l = lines.last();
        if starts_with(l, "MemTotal:"@) {
            (mem_line_value(l), p.1, p.2, p.3)
        } else if starts_with(l, "MemAvailable:"@) {
            (p.0, mem_line_value(l), p.2, p.3)
        } else if starts_with(l, "SwapTotal:"@) {
            (p.0, p.1, mem_line_value(l), p.3)
        } else if starts_with(l, "SwapFree:"@) {
            (p.0, p.1, p.2, mem_line_value(l))
        } else {
            p
        }
    }
}

/// Memory in bytes from the text of `/proc/meminfo`: (used, total,
/// swap used, swap total), where used is total less available, each product
/// and difference saturating.
pub open spec fn meminfo_usage(content: Seq<char>) -> (u64, u64, u64, u64) {
    let f = meminfo_fields(split_lines(content));
    let mem_total = sat_mul(f.0, 1024);
    let swap_total = sat_mul(f.2, 1024);
    (
        sat_sub(mem_total, sat_mul(f.1, 1024)),
        mem_total,
        sat_sub(swap_total, sat_mul(f.3, 1024)),
        swap_total,
    )
}

/// Reads memory and swap use in bytes from the text of `/proc/meminfo`:
/// `(used, total, swap_used, swap_total)`.
pub fn parse_meminfo(content: &str) -> (r: (u64, u64, u64, u64))
    ensures
        r == meminfo_usage(content@),
{
    let v = chars_of(content);
    let lines = split_lines_of(&v);
    let k_total = chars_of("MemTotal:");
    let k_avail = chars_of("MemAvailable:");
    let k_swap_total = chars_of("SwapTotal:");
    let k_swap_free = chars_of("SwapFree:");
    let mut f: (u64, u64, u64, u64) = (0, 0, 0, 0);
    let mut i: usize = 0;
    assert(views(lines@).take(0) =~= Seq::<Seq<char>>::empty());
    while i < lines.len()
        invariant
            i <= lines.len(),
            views(lines@) == split_lines(content@),
            k_total@ == "MemTotal:"@,
            k_avail@ == "MemAvailable:"@,
            k_swap_total@ == "SwapTotal:"@,
            k_swap_free@ == "SwapFree:"@,
            f == meminfo_fields(views(lines@).take(i as int)),
        decreases lines.len() - i,
    {
        let ghost pre = views(lines@).take(i + 1);
        assert(pre.drop_last() =~= views(lines@).take(i as int));
        assert(pre.last() == lines@[i as int]@);
        let line = &lines[i];
        if starts_with_chars(line, &k_total) {
            f = (mem_line_value_chars(line), f.1, f.2, f.3);
        } else if starts_with_chars(line, &k_avail) {
            f = (f.0, mem_line_value_chars(line), f.2, f.3);
        } else if starts_with_chars(line, &k_swap_total) {
            f = (f.0, f.1, mem_line_value_chars(line), f.3);
        } else if starts_with_chars(line, &k_swap_free) {
            f = (f.0, f.1, f.2, mem_line_value_chars(line));
        }
        i = i + 1;
    }
    assert(views(lines@).take(lines.len() as int) =~= views(lines@));
    let mem_total = saturating_mul_u64(f.0, 1024);
    let swap_total = saturating_mul_u64(f.2, 1024);
    let mem_used = mem_total.saturating_sub(saturating_mul_u64(f.1, 1024));
    let swap_used = swap_total.saturating_sub(saturating_mul_u64(f.3, 1024));
    (mem_used, mem_total, swap_used, swap_total)
}

/// The fields of a token list that read as numbers, in order, others left out.
pub open spec fn number_fields(t: Seq<Seq<char>>) -> Seq<u64>
    decreases t.len(),
{
    if t.len() == 0 {
        seq![]
    } else {
        let p = number_fields(t.drop_last());
        match parse_u64_spec(t.last()) {
            Some(x) => p.push(x),
            None => p,
        }
    }
}

/// The sum of a sequence of counters.
pub open spec fn seq_sum(s: Seq<u64>) -> nat
    decreases s.len(),
{
    if s.len() == 0 {
        0
    } else {
        seq_sum(s.drop_last()) + (s.last() as nat)
    }
}

/// The counters of a `/proc/stat` line: the numeric fields after the first.
pub open spec fn cpu_counters(line: Seq<char>) -> Seq<u64> {
    let t = tokens(line);
    if t.len() == 0 {
        seq![]
    } else {
        number_fields(t.drop_first())
    }
}

/// The line is the aggregate CPU line of `/proc/stat`.
pub open spec fn is_cpu_line(line: Seq<char>) -> bool {
    starts_with(line, "cpu "@)
}

/// `(work, total)` jiffies of the aggregate CPU line: total is the sum of
/// all counters, idle the fourth counter plus the fifth (iowait) if present,
/// and work the rest. `None` for another line or fewer than four counters.
pub open spec fn cpu_stat_spec(line: Seq<char>) -> Option<(u64, u64)> {
    let p = cpu_counters(line);
    if !is_cpu_line(line) || p.len() < 4 {
        None
    } else {
        let idle: nat = (p[3] as nat) + (if p.len() > 4 {
            p[4] as nat
        } else {
            0nat
        });
        let total = seq_sum(p);
        Some(((total - idle) as u64, total as u64))
    }
}

/// The counters of the line add up to a `u64` (summing them cannot overflow).
pub open spec fn cpu_stat_in_range(line: Seq<char>) -> bool {
    is_cpu_line(line) ==> seq_sum(cpu_counters(line)) <= u64::MAX
}

/// A prefix never sums to more than the whole.
pub proof fn lemma_sum_prefix_le(s: Seq<u64>, k: int)
    requires
        0 <= k <= s.len(),
    ensures
        seq_sum(s.take(k)) <= seq_sum(s),
    decreases s.len(),
{
    if k < s.len() {
        lemma_sum_prefix_le(s.drop_last(), k);
        assert(s.drop_last().take(k) =~= s.take(k));
    } else {
        assert(s.take(k) =~= s);
    }
}

fn cpu_counters_of(v: &Vec<char>) -> (p: Vec<u64>)
    ensures
        p@ == cpu_counters(v@),
{
    let t = split_ws(v);
    let mut p: Vec<u64> = Vec::new();
    if t.len() == 0 {
        assert(p@ =~= Seq::<u64>::empty());
        return p;
    }
    let ghost rest = views(t@).drop_first();
    let mut i: usize = 1;
    assert(rest.take(0) =~= Seq::<Seq<char>>::empty());
    while i < t.len()
        invariant
            1 <= i <= t.len(),
            rest == views(t@).drop_first(),
            p@ == number_fields(rest.take(i - 1)),
        decreases t.len() - i,
    {
        let ghost pre = rest.take(i as int);
        assert(pre.drop_last() =~= rest.take(i - 1));
        assert(pre.last() == t@[i as int]@);
        if let Some(x) = parse_u64_chars(&t[i]) {
            p.push(x);
        }
        i = i + 1;
    }
    assert(rest.take(t.len() - 1) =~= rest);
    p
}

/// Whether the counters of a `/proc/stat` line can be summed: true for a line
/// that is not the aggregate CPU line.
pub fn cpu_stat_line_in_range(line: &str) -> (b: bool)
    ensures
        b == cpu_stat_in_range(line@),
{
    let v = chars_of(line);
    let prefix = chars_of("cpu ");
    if !starts_with_chars(&v, &prefix) {
        return true;
    }
    let p = cpu_counters_of(&v);
    let mut acc: u64 = 0;
    let mut i: usize = 0;
    while i < p.len()
        invariant
            i <= p.len(),
            acc == seq_sum(p@.take(i as int)),
            p@ == cpu_counters(line@),
            is_cpu_line(line@),
        decreases p.len() - i,
    {
        assert(p@.take(i + 1).drop_last() =~= p@.take(i as int));
        match acc.checked_add(p[i]) {
            Some(x) => acc = x,
            None => {
                proof {
                    let q = p@.take(i + 1);
                    assert(q.last() == p@[i as int]);
                    assert(seq_sum(q) == seq_sum(q.drop_last()) + (q.last() as nat));
                    lemma_sum_prefix_le(p@, i + 1);
                }
                return false;
            },
        }
        i = i + 1;
    }
    assert(p@.take(p.len() as int) =~= p@);
    true
}

/// Reads `(work, total)` jiffies from the aggregate `cpu` line of
/// `/proc/stat`; `None` for another line or one with fewer than four counters.
pub fn parse_cpu_stat_line(line: &str) -> (r: Option<(u64, u64)>)
    requires
        cpu_stat_in_range(line@),
    ensures
        r == cpu_stat_spec(line@),
{
    let v = chars_of(line);
    let prefix = chars_of("cpu ");
    if !starts_with_chars(&v, &prefix) {
        return None;
    }
    let p = cpu_counters_of(&v);
    if p.len() < 4 {
        return None;
    }
    let mut total: u64 = 0;
    let mut i: usize = 0;
    while i < p.len()
        invariant
            i <= p.len(),
            seq_sum(p@) <= u64::MAX,
            total == seq_sum(p@.take(i as int)),
        decreases p.len() - i,
    {
        assert(p@.take(i + 1).drop_last() =~= p@.take(i as int));
        proof {
            lemma_sum_prefix_le(p@, i + 1);
        }
        total = total + p[i];
        i = i + 1;
    }
    assert(p@.take(p.len() as int) =~= p@);
    proof {
        let k: int = if p.len() > 4 {
            5
        } else {
            4
        };
        lemma_sum_prefix_le(p@, k);
        let q4 = p@.take(4);
        assert(q4.drop_last() =~= p@.take(3));
        assert(q4.last() == p@[3]);
        assert(seq_sum(q4) == seq_sum(p@.take(3)) + (p@[3] as nat));
        if k == 5 {
            let q5 = p@.take(5);
            assert(q5.drop_last() =~= q4);
            assert(q5.last() == p@[4]);
            assert(seq_sum(q5) == seq_sum(q4) + (p@[4] as nat));
        }
    }
    let extra: u64 = if p.len() > 4 {
        p[4]
    } else {
        0
    };
    let idle = p[3] + extra;
    let work = total - idle;
    Some((work, total))
}

/// The change in `(work, total)` jiffies since the previous reading, or
/// `None` when there was no previous reading (total 0) or the total did not
/// grow. The work difference saturates at 0.
pub fn cpu_usage_delta(prev: (u64, u64), cur: (u64, u64)) -> (r: Option<(u64, u64)>)
    ensures
        r == (if prev.1 == 0 || cur.1 <= prev.1 {
            None
        } else {
            Some((sat_sub(cur.0, prev.0), (cur.1 - prev.1) as u64))
        }),
{
    if prev.1 == 0 || cur.1 <= prev.1 {
        None
    } else {
        Some((cur.0.saturating_sub(prev.0), cur.1 - prev.1))
    }
}

/// The whole seconds of `/proc/uptime`: the first field up to its `.`, read
/// as a number, or 0.
pub open spec fn uptime_spec(content: Seq<char>) -> u64 {
    let t = tokens(content);
    if t.len() == 0 {
        0
    } else {
        match parse_u64_spec(split_on(t[0], '.')[0]) {
            Some(x) => x,
            None => 0,
        }
    }
}

/// Reads the whole seconds of uptime from the text of `/proc/uptime`.
pub fn parse_uptime_secs(content: &str) -> (r: u64)
    ensures
        r == uptime_spec(content@),
{
    let v = chars_of(content);
    let t = split_ws(&v);
    if t.len() == 0 {
        return 0;
    }
    assert(views(t@)[0] == t@[0]@);
    let parts = split_char(&t[0], '.');
    proof {
        crate::ssh::lemma_split_nonempty(t@[0]@, '.');
    }
    assert(views(parts@)[0] == parts@[0]@);
    match parse_u64_chars(&parts[0]) {
        Some(x) => x,
        None => 0,
    }
}

/// `(used, total)` bytes of a file system from its block count, available
/// block count and fragment size: total is blocks times size, used is total
/// less available, each saturating.
pub fn disk_usage(blocks: u64, blocks_available: u64, fragment_size: u64) -> (r: (u64, u64))
    ensures
        r.1 == sat_mul(blocks, fragment_size),
        r.0 == sat_sub(r.1, sat_mul(blocks_available, fragment_size)),
{
    let total = saturating_mul_u64(blocks, fragment_size);
    let avail = saturating_mul_u64(blocks_available, fragment_size);
    (total.saturating_sub(avail), total)
}

/// Uptime split into whole days, hours of the day and minutes of the hour.
pub fn uptime_parts(uptime_secs: u64) -> (r: (u64, u64, u64))
    ensures
        r == (uptime_secs / 86400, (uptime_secs % 86400) / 3600, (uptime_secs % 3600) / 60),
{
    (uptime_secs / 86400, (uptime_secs % 86400) / 3600, (uptime_secs % 3600) / 60)
}

/// The host name used when `hostname` fails or prints nothing.
pub open spec fn default_hostname() -> Seq<char> {
    "ubuntu-server"@
}

/// The host name from the output of `hostname`, if it ran: the output
/// trimmed, or `"ubuntu-server"` when it did not run or printed nothing.
pub fn resolve_hostname(output: Option<&str>) -> (r: String)
    ensures
        r@ == (match output {
            Some(o) => if trim(o@).len() > 0 {
                trim(o@)
            } else {
                default_hostname()
            },
            None => default_hostname(),
        }),
{
    if let Some(o) = output {
        let v = chars_of(o);
        let t = trim_chars(&v);
        if t.len() > 0 {
            return string_of(&t);
        }
    }
    let mut s = String::new();
    push_str(&mut s, "ubuntu-server");
    s
}

/// The number in a sysfs attribute file, given its text if it could be read:
/// the text trimmed and read as a `u8`.
pub fn read_sys_u8(contents: Option<&str>) -> (r: Option<u8>)
    ensures
        r == (match contents {
            Some(c) => parse_u8_spec(trim(c@)),
            None => None,
        }),
{
    match contents {
        Some(c) => {
            let v = chars_of(c);
            let t = trim_chars(&v);
            parse_u8_chars(&t)
        },
        None => None,
    }
}

/// The number in a sysfs attribute file, given its text if it could be read:
/// the text trimmed and read as a `u64`.
pub fn read_sys_u64(contents: Option<&str>) -> (r: Option<u64>)
    ensures
        r == (match contents {
            Some(c) => parse_u64_spec(trim(c@)),
            None => None,
        }),
{
    match contents {
        Some(c) => {
            let v = chars_of(c);
            let t = trim_chars(&v);
            parse_u64_chars(&t)
        },
        None => None,
    }
}

/// The fan speed in the HP embedded controller's register dump: the
/// little-endian 16-bit value at offset `0x70` (low byte first), if the dump
/// reaches it and the value lies in `1..=20000` RPM.
pub open spec fn ec_fan_rpm(data: Seq<u8>) -> Option<u32> {
    if data.len() <= 0x71 {
        None
    } else {
        let rpm = data[0x70] + data[0x71] * 256;
        if rpm == 0 || rpm > 20000 {
            None
        } else {
            Some(rpm as u32)
        }
    }
}

/// Reads the fan speed from the embedded controller's register dump.
pub fn fan_rpm_from_ec(data: &[u8]) -> (r: Option<u32>)
    ensures
        r == ec_fan_rpm(data@),
{
    if data.len() <= 0x71 {
        return None;
    }
    let low = data[0x70] as u32;
    let high = data[0x71] as u32;
    assert((high << 8) | low == high * 256 + low) by (bit_vector)
        requires
            high < 256,
            low < 256,
    ;
    let rpm = (high << 8) | low;
    if rpm == 0 || rpm > 20_000 {
        return None;
    }
    Some(rpm)
}

/// The largest positive fan speed among the texts of `fan*_input` files,
/// each trimmed and read as a `u32`; `None` when none gives one.
pub open spec fn max_fan_rpm(readings: Seq<Seq<char>>) -> Option<u32>
    decreases readings.len(),
{
    if readings.len() == 0 {
        None
    } else {
        let p = max_fan_rpm(readings.drop_last());
        match parse_u32_spec(trim(readings.last())) {
            Some(r) => if r > 0 {
                match p {
                    Some(c) => Some(
                        if c >= r {
                            c
                        } else {
                            r
                        },
                    ),
                    None => Some(r),
                }
            } else {
                p
            },
            None => p,
        }
    }
}

pub open spec fn string_views(s: Seq<String>) -> Seq<Seq<char>> {
    s.map_values(|x: String| x@)
}

/// The speed a tachometer reading gives when it is a positive number.
pub open spec fn positive_reading(t: Seq<char>) -> Option<u32> {
    match parse_u32_spec(trim(t)) {
        Some(r) => if r > 0 {
            Some(r)
        } else {
            None
        },
        None => None,
    }
}

/// A reading does not exceed `r`: it is not a positive speed above it.
pub open spec fn reading_at_most(t: Seq<char>, r: u32) -> bool {
    match positive_reading(t) {
        Some(x) => x <= r,
        None => true,
    }
}

/// The fan speed found is the largest of the positive readings: no positive
/// reading exceeds it and one of them equals it; none is found exactly when
/// no reading is a positive speed.
pub proof fn lemma_fan_speed_is_max(readings: Seq<Seq<char>>)
    ensures
        match max_fan_rpm(readings) {
            Some(r) => {
                &&& forall|i: int|
                    0 <= i < readings.len() ==> reading_at_most(#[trigger] readings[i], r)
                &&& exists|i: int|
                    0 <= i < readings.len() && #[trigger] positive_reading(readings[i]) == Some(r)
            },
            None => forall|i: int|
                0 <= i < readings.len() ==> #[trigger] positive_reading(readings[i]) is None,
        },
    decreases readings.len(),
{
    if readings.len() > 0 {
        let init = readings.drop_last();
        lemma_fan_speed_is_max(init);
        let n = readings.len() - 1;
        assert forall|i: int| 0 <= i < n implies readings[i] == init[i] by {}
        match max_fan_rpm(readings) {
            Some(r) => {
                assert forall|i: int| 0 <= i < readings.len() implies reading_at_most(
                    #[trigger] readings[i],
                    r,
                ) by {
                    if i < n {
                        assert(readings[i] == init[i]);
                    }
                }
                if positive_reading(readings[n]) == Some(r) {
                } else {
                    let w = choose|i: int|
                        0 <= i < init.len() && #[trigger] positive_reading(init[i]) == Some(r);
                    assert(readings[w] == init[w]);
                }
            },
            None => {
                assert forall|i: int| 0 <= i < readings.len() implies #[trigger] positive_reading(
                    readings[i],
                ) is None by {
                    if i < n {
                        assert(readings[i] == init[i]);
                    }
                }
            },
        }
    }
}

/// The fan speed from the hwmon tachometer readings: the largest positive one.
pub fn fan_speed_from_readings(readings: &Vec<String>) -> (r: Option<u32>)
    ensures
        r == max_fan_rpm(string_views(readings@)),
        match r {
            Some(x) => forall|i: int|
                0 <= i < readings.len() ==> reading_at_most(#[trigger] readings@[i]@, x),
            None => forall|i: int|
                0 <= i < readings.len() ==> #[trigger] positive_reading(readings@[i]@) is None,
        },
{
    let mut best: Option<u32> = None;
    let mut i: usize = 0;
    assert(string_views(readings@).take(0) =~= Seq::<Seq<char>>::empty());
    while i < readings.len()
        invariant
            i <= readings.len(),
            best == max_fan_rpm(string_views(readings@).take(i as int)),
        decreases readings.len() - i,
    {
        let ghost pre = string_views(readings@).take(i + 1);
        assert(pre.drop_last() =~= string_views(readings@).take(i as int));
        assert(pre.last() == readings@[i as int]@);
        let v = chars_of(readings[i].as_str());
        let t = trim_chars(&v);
        if let Some(rpm) = parse_u32_chars(&t) {
            if rpm > 0 {
                best = match best {
                    Some(c) => Some(
                        if c >= rpm {
                            c
                        } else {
                            rpm
                        },
                    ),
                    None => Some(rpm),
                };
            }
        }
        i = i + 1;
    }
    assert(string_views(readings@).take(readings.len() as int) =~= string_views(readings@));
    proof {
        let v = string_views(readings@);
        lemma_fan_speed_is_max(v);
        match best {
            Some(x) => {
                assert forall|i: int| 0 <= i < readings.len() implies reading_at_most(
                    #[trigger] readings@[i]@,
                    x,
                ) by {
                    assert(v[i] == readings@[i]@);
                    assert(reading_at_most(v[i], x));
                }
            },
            None => {
                assert forall|i: int| 0 <= i < readings.len() implies #[trigger] positive_reading(
                    readings@[i]@,
                ) is None by {
                    assert(v[i] == readings@[i]@);
                    assert(positive_reading(v[i]) is None);
                }
            },
        }
    }
    best
}

/// A cooling device of the thermal class, as its sysfs files read: its
/// `type` text and its `cur_state` text.
pub struct CoolingDevice {
    pub kind: String,
    pub cur_state: String,
}

/// A cooling device is a fan when its type holds `fan` in any case.
pub open spec fn is_fan_device(d: CoolingDevice) -> bool {
    contains_ci(d.kind@, "fan"@)
}

/// A device runs when its state, trimmed, reads as a number above zero.
pub open spec fn device_running(d: CoolingDevice) -> bool {
    match parse_u64_spec(trim(d.cur_state@)) {
        Some(n) => n > 0,
        None => false,
    }
}

/// The text shown for the fan: the speed where a tachometer or the embedded
/// controller gives one; else `Auto (Active)` when a fan cooling device runs,
/// `Auto (Silent)` when there are fan devices but none runs, and nothing when
/// there is none.
pub open spec fn fan_status_spec(rpm: Option<u32>, devices: Seq<CoolingDevice>) -> Seq<char> {
    match rpm {
        Some(r) => decimal(r as nat) + " RPM"@,
        None => if exists|i: int|
            0 <= i < devices.len() && is_fan_device(#[trigger] devices[i]) && device_running(
                devices[i],
            ) {
            "Auto (Active)"@
        } else if exists|i: int| 0 <= i < devices.len() && is_fan_device(#[trigger] devices[i]) {
            "Auto (Silent)"@
        } else {
            ""@
        },
    }
}

/// The text shown for the fan, from the measured speed if any and the
/// thermal cooling devices.
pub fn fan_status_text(rpm: Option<u32>, devices: &Vec<CoolingDevice>) -> (s: String)
    ensures
        s@ == fan_status_spec(rpm, devices@),
{
    let mut s = String::new();
    if let Some(r) = rpm {
        push_decimal(&mut s, r as u64);
        push_str(&mut s, " RPM");
        return s;
    }
    let fan_kw = chars_of("fan");
    let mut seen_fan = false;
    let mut running = false;
    let mut i: usize = 0;
    while i < devices.len()
        invariant
            i <= devices.len(),
            fan_kw@ == "fan"@,
            seen_fan == (exists|j: int| 0 <= j < i && is_fan_device(#[trigger] devices@[j])),
            running == (exists|j: int|
                0 <= j < i && is_fan_device(#[trigger] devices@[j]) && device_running(devices@[j])),
        decreases devices.len() - i,
    {
        let kind = chars_of(devices[i].kind.as_str());
        if contains_ignore_ascii_case(&kind, &fan_kw) {
            seen_fan = true;
            let st = chars_of(devices[i].cur_state.as_str());
            let t = trim_chars(&st);
            match parse_u64_chars(&t) {
                Some(n) => {
                    if n > 0 {
                        running = true;
                    }
                },
                None => {},
            }
        }
        proof {
            assert(is_fan_device(devices@[i as int]) == contains_ci(kind@, fan_kw@));
        }
        i = i + 1;
    }
    proof {
        reveal_strlit("");
    }
    if running {
        push_str(&mut s, "Auto (Active)");
        assert(s@ =~= "Auto (Active)"@);
    } else if seen_fan {
        push_str(&mut s, "Auto (Silent)");
        assert(s@ =~= "Auto (Silent)"@);
    } else {
        assert(s@ =~= ""@);
    }
    s
}

} // verus!
