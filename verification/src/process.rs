//! Processes: the sort mode of the process table and the parsing of
//! `ps -eo pid,comm,%cpu,%mem,rss` lines.
use vstd::prelude::*;
use crate::text::{
    chars_of, parse_u32_chars, parse_u32_spec, parse_u64_chars, parse_u64_spec, push_chars, sat_mul,
    saturating_mul_u64, split_ws, string_of, tokens, views,
};

verus! {

/// The column by which the process table is ordered.
#[derive(Debug, Clone, Copy, PartialEq, Eq, Structural)]
pub enum ProcessSortMode {
    Cpu,
    Ram,
}

impl ProcessSortMode {
    /// The text shown for this mode.
    pub open spec fn label_spec(self) -> Seq<char> {
        match self {
            ProcessSortMode::Cpu => "CPU"@,
            ProcessSortMode::Ram => "RAM"@,
        }
    }

    /// The other mode.
    pub open spec fn toggled(self) -> ProcessSortMode {
        match self {
            ProcessSortMode::Cpu => ProcessSortMode::Ram,
            ProcessSortMode::Ram => ProcessSortMode::Cpu,
        }
    }

    pub fn label(self) -> (r: &'static str)
        ensures
            r@ == self.label_spec(),
    {
        match self {
            ProcessSortMode::Cpu => "CPU",
            ProcessSortMode::Ram => "RAM",
        }
    }

    pub fn toggle(self) -> (r: ProcessSortMode)
        ensures
            r == self.toggled(),
    {
        match self {
            ProcessSortMode::Cpu => ProcessSortMode::Ram,
            ProcessSortMode::Ram => ProcessSortMode::Cpu,
        }
    }
}

/// The tokens `t`, joined with single spaces.
pub open spec fn join_tokens(t: Seq<Seq<char>>) -> Seq<char>
    decreases t.len(),
{
    if t.len() == 0 {
        seq![]
    } else if t.len() == 1 {
        t[0]
    } else {
        join_tokens(t.drop_last()) + seq![' '] + t.last()
    }
}

/// One process as `ps` lists it: the CPU and memory percentages as written,
/// and the resident memory in bytes.
pub struct ProcessLine {
    pub pid: u32,
    pub name: String,
    pub cpu_text: String,
    pub mem_text: String,
    pub mem_bytes: u64,
}

/// The fields of a process line: at least five whitespace-separated fields,
/// the first a `u32` process id; the last three are CPU percentage, memory
/// percentage and resident kB (0 if not a number, times 1024 saturating), and
/// the fields between id and CPU, joined by spaces, make the name.
pub open spec fn process_line_spec(line: Seq<char>) -> Option<(u32, Seq<char>, Seq<char>, Seq<char>, u64)> {
    let t = tokens(line);
    let n = t.len();
    if n < 5 {
        None
    } else {
        match parse_u32_spec(t[0]) {
            None => None,
            Some(pid) => {
                let rss_kb: u64 = match parse_u64_spec(t[n - 1]) {
                    Some(x) => x,
                    None => 0,
                };
                Some(
                    (
                        pid,
                        join_tokens(t.subrange(1, n - 3)),
                        t[n - 3],
                        t[n - 2],
                        sat_mul(rss_kb, 1024),
                    ),
                )
            },
        }
    }
}

/// The fields of a parsed process line.
pub open spec fn process_line_view(p: ProcessLine) -> (u32, Seq<char>, Seq<char>, Seq<char>, u64) {
    (p.pid, p.name@, p.cpu_text@, p.mem_text@, p.mem_bytes)
}

/// Parses one line of `ps -eo pid,comm,%cpu,%mem,rss` output.
pub fn parse_process_line(line: &str) -> (r: Option<ProcessLine>)
    ensures
        match r {
            Some(p) => process_line_spec(line@) == Some(process_line_view(p)),
            None => process_line_spec(line@) is None,
        },
{
    let v = chars_of(line);
    let t = split_ws(&v);
    let n = t.len();
    if n < 5 {
        return None;
    }
    let ghost tv = views(t@);
    assert(tv[0] == t@[0]@);
    let pid = match parse_u32_chars(&t[0]) {
        Some(p) => p,
        None => return None,
    };
    assert(tv[n - 1] == t@[n - 1]@ && tv[n - 2] == t@[n - 2]@ && tv[n - 3] == t@[n - 3]@);
    let rss_kb = match parse_u64_chars(&t[n - 1]) {
        Some(x) => x,
        None => 0,
    };
    let mut name = String::new();
    let mut i: usize = 1;
    assert(tv.subrange(1, 1) =~= Seq::<Seq<char>>::empty());
    while i < n - 3
        invariant
            1 <= i <= n - 3,
            n == t.len(),
            tv == views(t@),
            name@ == join_tokens(tv.subrange(1, i as int)),
        decreases n - 3 - i,
    {
        let ghost sub = tv.subrange(1, i + 1);
        assert(sub.drop_last() =~= tv.subrange(1, i as int));
        assert(sub.last() == t@[i as int]@);
        if i > 1 {
            name.push(' ');
        } else {
            assert(sub.len() == 1);
        }
        push_chars(&mut name, &t[i]);
        i = i + 1;
    }
    Some(
        ProcessLine {
            pid,
            name,
            cpu_text: string_of(&t[n - 3]),
            mem_text: string_of(&t[n - 2]),
            mem_bytes: saturating_mul_u64(rss_kb, 1024),
        },
    )
}

/// The unit a memory size is shown in.
#[derive(Debug, Clone, Copy, PartialEq, Eq, Structural)]
pub enum MemUnit {
    GiB,
    MiB,
    KiB,
    Bytes,
}

/// The largest binary unit that the size reaches (bytes below 1 KiB).
pub open spec fn mem_unit_spec(bytes: u64) -> MemUnit {
    if bytes >= 1024 * 1024 * 1024 {
        MemUnit::GiB
    } else if bytes >= 1024 * 1024 {
        MemUnit::MiB
    } else if bytes >= 1024 {
        MemUnit::KiB
    } else {
        MemUnit::Bytes
    }
}

/// Picks the unit to show a memory size in.
pub fn mem_unit(bytes: u64) -> (r: MemUnit)
    ensures
        r == mem_unit_spec(bytes),
{
    if bytes >= 1024 * 1024 * 1024 {
        MemUnit::GiB
    } else if bytes >= 1024 * 1024 {
        MemUnit::MiB
    } else if bytes >= 1024 {
        MemUnit::KiB
    } else {
        MemUnit::Bytes
    }
}

/// Toggling twice gives back the mode.
pub proof fn lemma_toggle_involutive(m: ProcessSortMode)
    ensures
        m.toggled().toggled() == m,
        m.toggled() != m,
        m.toggled().label_spec() != m.label_spec(),
{
    reveal_strlit("CPU");
    reveal_strlit("RAM");
    assert(m.toggled().label_spec()[0] != m.label_spec()[0]);
}

/// The process id an entry of a merged process list stands for: `(true, i)`
/// is the `i`-th process of the listing ordered by CPU, `(false, j)` the
/// `j`-th of the listing ordered by memory.
pub open spec fn picked_pid(by_cpu: Seq<u32>, by_mem: Seq<u32>, e: (bool, usize)) -> u32 {
    if e.0 {
        by_cpu[e.1 as int]
    } else {
        by_mem[e.1 as int]
    }
}

/// An entry picks the right row for its process: from the CPU listing, the
/// last row of that process; from the memory listing, only a process that the
/// CPU listing lacks, and its first row there.
pub open spec fn right_pick(by_cpu: Seq<u32>, by_mem: Seq<u32>, e: (bool, usize)) -> bool {
    if e.0 {
        &&& e.1 < by_cpu.len()
        &&& forall|i: int| e.1 < i < by_cpu.len() ==> #[trigger] by_cpu[i] != by_cpu[e.1 as int]
    } else {
        &&& e.1 < by_mem.len()
        &&& forall|i: int| 0 <= i < by_cpu.len() ==> #[trigger] by_cpu[i] != by_mem[e.1 as int]
        &&& forall|j: int| 0 <= j < e.1 ==> #[trigger] by_mem[j] != by_mem[e.1 as int]
    }
}

/// The entries point into their listings, and no process is picked twice.
pub open spec fn picks_valid(by_cpu: Seq<u32>, by_mem: Seq<u32>, r: Seq<(bool, usize)>) -> bool {
    &&& forall|k: int|
        0 <= k < r.len() ==> (if r[k].0 {
            r[k].1 < by_cpu.len()
        } else {
            r[k].1 < by_mem.len()
        })
    &&& forall|a: int, b: int|
        0 <= a < b < r.len() ==> picked_pid(by_cpu, by_mem, r[a]) != picked_pid(
            by_cpu,
            by_mem,
            r[b],
        )
}

/// Whether some entry of `r` stands for process `pid`.
pub open spec fn picks_pid(by_cpu: Seq<u32>, by_mem: Seq<u32>, r: Seq<(bool, usize)>, pid: u32) -> bool {
    exists|k: int| 0 <= k < r.len() && #[trigger] picked_pid(by_cpu, by_mem, r[k]) == pid
}

fn find_pick(by_cpu: &Vec<u32>, by_mem: &Vec<u32>, r: &Vec<(bool, usize)>, pid: u32) -> (f: Option<
    usize,
>)
    requires
        picks_valid(by_cpu@, by_mem@, r@),
    ensures
        match f {
            Some(k) => k < r.len() && picked_pid(by_cpu@, by_mem@, r@[k as int]) == pid,
            None => !picks_pid(by_cpu@, by_mem@, r@, pid),
        },
{
    let mut k: usize = 0;
    while k < r.len()
        invariant
            k <= r.len(),
            picks_valid(by_cpu@, by_mem@, r@),
            forall|m: int| 0 <= m < k ==> picked_pid(by_cpu@, by_mem@, r@[m]) != pid,
        decreases r.len() - k,
    {
        let (from_cpu, i) = r[k];
        let p = if from_cpu {
            by_cpu[i]
        } else {
            by_mem[i]
        };
        if p == pid {
            return Some(k);
        }
        k = k + 1;
    }
    None
}

/// Merges the processes of a listing ordered by CPU with those of a listing
/// ordered by memory, one entry per process id: a process of the CPU listing
/// is taken from it (its last row), the others from the memory listing (their
/// first row). The order of the entries is left open.
pub fn merge_by_pid(by_cpu: &Vec<u32>, by_mem: &Vec<u32>) -> (r: Vec<(bool, usize)>)
    ensures
        picks_valid(by_cpu@, by_mem@, r@),
        forall|k: int| 0 <= k < r.len() ==> right_pick(by_cpu@, by_mem@, #[trigger] r@[k]),
        forall|i: int| 0 <= i < by_cpu.len() ==> picks_pid(by_cpu@, by_mem@, r@, #[trigger] by_cpu@[i]),
        forall|j: int| 0 <= j < by_mem.len() ==> picks_pid(by_cpu@, by_mem@, r@, #[trigger] by_mem@[j]),
        r.len() <= by_cpu.len() + by_mem.len(),
{
    let mut r: Vec<(bool, usize)> = Vec::new();
    let mut i: usize = 0;
    while i < by_cpu.len()
        invariant
            i <= by_cpu.len(),
            r.len() <= i,
            picks_valid(by_cpu@, by_mem@, r@),
            forall|k: int|
                0 <= k < r.len() ==> (#[trigger] r@[k]).0 && r@[k].1 < i && forall|i2: int|
                    r@[k].1 < i2 < i ==> #[trigger] by_cpu@[i2] != by_cpu@[r@[k].1 as int],
            forall|i2: int| 0 <= i2 < i ==> picks_pid(by_cpu@, by_mem@, r@, #[trigger] by_cpu@[i2]),
        decreases by_cpu.len() - i,
    {
        let pid = by_cpu[i];
        let ghost old_r = r@;
        match find_pick(by_cpu, by_mem, &r, pid) {
            Some(k) => {
                r.set(k, (true, i));
                proof {
                    assert forall|i2: int| 0 <= i2 < i + 1 implies picks_pid(
                        by_cpu@,
                        by_mem@,
                        r@,
                        #[trigger] by_cpu@[i2],
                    ) by {
                        if i2 == i {
                            assert(picked_pid(by_cpu@, by_mem@, r@[k as int]) == pid);
                        } else {
                            let m = choose|m: int|
                                0 <= m < old_r.len() && #[trigger] picked_pid(
                                    by_cpu@,
                                    by_mem@,
                                    old_r[m],
                                ) == by_cpu@[i2];
                            assert(picked_pid(by_cpu@, by_mem@, r@[m]) == by_cpu@[i2]);
                        }
                    }
                }
            },
            None => {
                r.push((true, i));
                proof {
                    assert forall|i2: int| 0 <= i2 < i + 1 implies picks_pid(
                        by_cpu@,
                        by_mem@,
                        r@,
                        #[trigger] by_cpu@[i2],
                    ) by {
                        if i2 == i {
                            assert(picked_pid(by_cpu@, by_mem@, r@[old_r.len() as int]) == pid);
                        } else {
                            let m = choose|m: int|
                                0 <= m < old_r.len() && #[trigger] picked_pid(
                                    by_cpu@,
                                    by_mem@,
                                    old_r[m],
                                ) == by_cpu@[i2];
                            assert(picked_pid(by_cpu@, by_mem@, r@[m]) == by_cpu@[i2]);
                        }
                    }
                }
            },
        }
        i = i + 1;
    }
    let ghost n_cpu = r.len();
    let mut j: usize = 0;
    while j < by_mem.len()
        invariant
            i == by_cpu.len(),
            j <= by_mem.len(),
            n_cpu <= r.len(),
            r.len() <= by_cpu.len() + j,
            picks_valid(by_cpu@, by_mem@, r@),
            forall|k: int| 0 <= k < r.len() ==> right_pick(by_cpu@, by_mem@, #[trigger] r@[k]),
            forall|k: int| 0 <= k < r.len() ==> (!(#[trigger] r@[k]).0 ==> r@[k].1 < j),
            forall|i2: int|
                0 <= i2 < by_cpu.len() ==> picks_pid(by_cpu@, by_mem@, r@, #[trigger] by_cpu@[i2]),
            forall|j2: int| 0 <= j2 < j ==> picks_pid(by_cpu@, by_mem@, r@, #[trigger] by_mem@[j2]),
        decreases by_mem.len() - j,
    {
        let pid = by_mem[j];
        let ghost old_r = r@;
        match find_pick(by_cpu, by_mem, &r, pid) {
            Some(k) => {},
            None => {
                r.push((false, j));
                proof {
                    assert forall|i2: int| 0 <= i2 < by_cpu.len() implies by_cpu@[i2] != pid by {
                        if by_cpu@[i2] == pid {
                            assert(picks_pid(by_cpu@, by_mem@, old_r, by_cpu@[i2]));
                        }
                    }
                    assert forall|j2: int| 0 <= j2 < j implies by_mem@[j2] != pid by {
                        if by_mem@[j2] == pid {
                            assert(picks_pid(by_cpu@, by_mem@, old_r, by_mem@[j2]));
                        }
                    }
                    assert(right_pick(by_cpu@, by_mem@, r@[old_r.len() as int]));
                    assert forall|i2: int| 0 <= i2 < by_cpu.len() implies picks_pid(
                        by_cpu@,
                        by_mem@,
                        r@,
                        #[trigger] by_cpu@[i2],
                    ) by {
                        let m = choose|m: int|
                            0 <= m < old_r.len() && #[trigger] picked_pid(
                                by_cpu@,
                                by_mem@,
                                old_r[m],
                            ) == by_cpu@[i2];
                        assert(picked_pid(by_cpu@, by_mem@, r@[m]) == by_cpu@[i2]);
                    }
                    assert forall|j2: int| 0 <= j2 < j + 1 implies picks_pid(
                        by_cpu@,
                        by_mem@,
                        r@,
                        #[trigger] by_mem@[j2],
                    ) by {
                        if j2 == j {
                            assert(picked_pid(by_cpu@, by_mem@, r@[old_r.len() as int]) == pid);
                        } else {
                            let m = choose|m: int|
                                0 <= m < old_r.len() && #[trigger] picked_pid(
                                    by_cpu@,
                                    by_mem@,
                                    old_r[m],
                                ) == by_mem@[j2];
                            assert(picked_pid(by_cpu@, by_mem@, r@[m]) == by_mem@[j2]);
                        }
                    }
                }
            },
        }
        j = j + 1;
    }
    r
}

} // verus!
