//! Choosing among the kernel's temperature and fan sensors by their names.
use vstd::prelude::*;
use crate::text::{
    chars_of, contains_ci, contains_ignore_ascii_case, ends_with, ends_with_chars, lower_seq,
    parse_u32_chars, parse_u32_spec, starts_with, starts_with_chars, trim, trim_chars,
    eq_ignore_ascii_case,
};

verus! {

/// How much a thermal zone of the given type is trusted to measure the CPU
/// package (higher is better): `5` for a package sensor (`x86_pkg_temp` or a
/// type holding `package`), `4` for another `x86` sensor, `3` for one holding
/// `cpu` or `core`, `2` for `acpitz`, `1` otherwise. The type is trimmed and
/// compared in ASCII lower case.
pub open spec fn sensor_score_spec(sensor_type: Seq<char>) -> i32 {
    let t = trim(sensor_type);
    if contains_ci(t, "package"@) || lower_seq(t) == "x86_pkg_temp"@ {
        5
    } else if contains_ci(t, "x86"@) {
        4
    } else if contains_ci(t, "cpu"@) || contains_ci(t, "core"@) {
        3
    } else if contains_ci(t, "acpitz"@) {
        2
    } else {
        1
    }
}

/// Scores a thermal zone by the text of its `type` file.
pub fn sensor_score(sensor_type: &str) -> (r: i32)
    ensures
        r == sensor_score_spec(sensor_type@),
{
    let v = chars_of(sensor_type);
    let t = trim_chars(&v);
    if contains_ignore_ascii_case(&t, &chars_of("package")) || eq_ignore_ascii_case(
        &t,
        &chars_of("x86_pkg_temp"),
    ) {
        5
    } else if contains_ignore_ascii_case(&t, &chars_of("x86")) {
        4
    } else if contains_ignore_ascii_case(&t, &chars_of("cpu")) || contains_ignore_ascii_case(
        &t,
        &chars_of("core"),
    ) {
        3
    } else if contains_ignore_ascii_case(&t, &chars_of("acpitz")) {
        2
    } else {
        1
    }
}

/// The first position holding the highest score: a later sensor replaces the
/// chosen one only when it scores strictly higher.
pub open spec fn best_index_spec(scores: Seq<i32>) -> Option<int>
    decreases scores.len(),
{
    if scores.len() == 0 {
        None
    } else {
        let p = best_index_spec(scores.drop_last());
        match p {
            Some(i) => if scores.last() > scores[i] {
                Some(scores.len() - 1)
            } else {
                Some(i)
            },
            None => Some(scores.len() - 1),
        }
    }
}

/// Picks the sensor to read from the scores of the candidates, in the order
/// they were found.
pub fn best_sensor(scores: &Vec<i32>) -> (r: Option<usize>)
    ensures
        match r {
            Some(i) => best_index_spec(scores@) == Some(i as int) && i < scores.len(),
            None => best_index_spec(scores@) is None,
        },
{
    let mut best: Option<usize> = None;
    let mut i: usize = 0;
    assert(scores@.take(0) =~= Seq::<i32>::empty());
    while i < scores.len()
        invariant
            i <= scores.len(),
            match best {
                Some(b) => best_index_spec(scores@.take(i as int)) == Some(b as int) && b < i,
                None => best_index_spec(scores@.take(i as int)) is None,
            },
        decreases scores.len() - i,
    {
        let ghost pre = scores@.take(i + 1);
        assert(pre.drop_last() =~= scores@.take(i as int));
        best = match best {
            Some(b) => {
                assert(pre[b as int] == scores@[b as int]);
                if scores[i] > scores[b] {
                    Some(i)
                } else {
                    Some(b)
                }
            },
            None => Some(i),
        };
        i = i + 1;
    }
    assert(scores@.take(scores.len() as int) =~= scores@);
    best
}

/// The hwmon device is the Intel `coretemp` driver: its `name` text, trimmed,
/// is `coretemp` in any ASCII case.
pub fn is_coretemp_name(name: &str) -> (b: bool)
    ensures
        b == (lower_seq(trim(name@)) == "coretemp"@),
{
    let v = chars_of(name);
    let t = trim_chars(&v);
    eq_ignore_ascii_case(&t, &chars_of("coretemp"))
}

/// The core number of a hwmon file named `temp<N>_input`, for `N` of at
/// least 2 (`temp1_input` is the package).
pub open spec fn core_temp_index_spec(file_name: Seq<char>) -> Option<u32> {
    if starts_with(file_name, "temp"@) && ends_with(file_name.skip(4), "_input"@) {
        let idx_text = file_name.subrange(4, file_name.len() - 6);
        match parse_u32_spec(idx_text) {
            Some(idx) => if idx >= 2 {
                Some(idx)
            } else {
                None
            },
            None => None,
        }
    } else {
        None
    }
}

/// Reads the core number from a hwmon file name.
pub fn core_temp_index(file_name: &str) -> (r: Option<u32>)
    ensures
        r == core_temp_index_spec(file_name@),
{
    let v = chars_of(file_name);
    let prefix = chars_of("temp");
    let suffix = chars_of("_input");
    proof {
        reveal_strlit("temp");
        reveal_strlit("_input");
    }
    if !starts_with_chars(&v, &prefix) {
        return None;
    }
    let mut rest: Vec<char> = Vec::new();
    let mut i: usize = 4;
    assert(v@.subrange(4, 4) =~= Seq::<char>::empty());
    while i < v.len()
        invariant
            4 <= i <= v.len(),
            rest@ == v@.subrange(4, i as int),
        decreases v.len() - i,
    {
        rest.push(v[i]);
        assert(v@.subrange(4, i + 1) =~= v@.subrange(4, i as int).push(v@[i as int]));
        i = i + 1;
    }
    assert(rest@ =~= v@.skip(4));
    if !ends_with_chars(&rest, &suffix) {
        return None;
    }
    let mut idx_text: Vec<char> = Vec::new();
    let end = v.len() - 6;
    let mut j: usize = 4;
    assert(v@.subrange(4, 4) =~= Seq::<char>::empty());
    while j < end
        invariant
            4 <= j <= end,
            end == v.len() - 6,
            idx_text@ == v@.subrange(4, j as int),
        decreases end - j,
    {
        idx_text.push(v[j]);
        assert(v@.subrange(4, j + 1) =~= v@.subrange(4, j as int).push(v@[j as int]));
        j = j + 1;
    }
    match parse_u32_chars(&idx_text) {
        Some(idx) => if idx >= 2 {
            Some(idx)
        } else {
            None
        },
        None => None,
    }
}

/// The file is a fan tachometer reading: `fan<N>_input`.
pub fn is_fan_input_name(file_name: &str) -> (b: bool)
    ensures
        b == (starts_with(file_name@, "fan"@) && ends_with(file_name@, "_input"@)),
{
    let v = chars_of(file_name);
    starts_with_chars(&v, &chars_of("fan")) && ends_with_chars(&v, &chars_of("_input"))
}

/// The directory is a thermal zone: its name starts with `thermal_zone`.
pub fn is_thermal_zone_name(dir_name: &str) -> (b: bool)
    ensures
        b == starts_with(dir_name@, "thermal_zone"@),
{
    let v = chars_of(dir_name);
    starts_with_chars(&v, &chars_of("thermal_zone"))
}

} // verus!
