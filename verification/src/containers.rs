//! Docker container states: folding `docker ps` status texts into a few
//! states, and the events that a change between two polls produces.
use vstd::prelude::*;
use crate::table::{
    keys_unique, lemma_keys_unique_push, lemma_pairs_map_dom, lemma_pairs_map_update,
    lemma_pairs_map_value, pairs_map,
};
use crate::text::{
    chars_of, contains_ci, contains_ignore_ascii_case, push_str, split_char, split_lines, split_lines_of, split_on, starts_with_ci,
    starts_with_ignore_ascii_case, string_of, trim, trim_chars, views,
};

verus! {

/// The state that a `docker ps` status text stands for: `"running"` for
/// `Up ...`, `"exited"`, `"paused"`, `"restarting"`, else `"stopped"`,
/// compared on the trimmed text without regard to case.
pub open spec fn container_status_kind(status: Seq<char>) -> Seq<char> {
    let t = trim(status);
    if starts_with_ci(t, seq!['u', 'p']) {
        "running"@
    } else if starts_with_ci(t, seq!['e', 'x', 'i', 't']) {
        "exited"@
    } else if starts_with_ci(t, seq!['p', 'a', 'u', 's', 'e']) {
        "paused"@
    } else if starts_with_ci(t, seq!['r', 'e', 's', 't', 'a', 'r', 't']) {
        "restarting"@
    } else {
        "stopped"@
    }
}

/// Folds a `docker ps` status text such as `"Up 6 weeks"` into one of
/// `running`, `exited`, `paused`, `restarting` or `stopped`.
pub fn simplify_container_status(status: &str) -> (r: &'static str)
    ensures
        r@ == container_status_kind(status@),
{
    let v = chars_of(status);
    let t = trim_chars(&v);
    let up: Vec<char> = vec!['u', 'p'];
    let exit: Vec<char> = vec!['e', 'x', 'i', 't'];
    let pause: Vec<char> = vec!['p', 'a', 'u', 's', 'e'];
    let restart: Vec<char> = vec!['r', 'e', 's', 't', 'a', 'r', 't'];
    assert(up@ =~= seq!['u', 'p']);
    assert(exit@ =~= seq!['e', 'x', 'i', 't']);
    assert(pause@ =~= seq!['p', 'a', 'u', 's', 'e']);
    assert(restart@ =~= seq!['r', 'e', 's', 't', 'a', 'r', 't']);
    if starts_with_ignore_ascii_case(&t, &up) {
        "running"
    } else if starts_with_ignore_ascii_case(&t, &exit) {
        "exited"
    } else if starts_with_ignore_ascii_case(&t, &pause) {
        "paused"
    } else if starts_with_ignore_ascii_case(&t, &restart) {
        "restarting"
    } else {
        "stopped"
    }
}

/// How a status text is shown in the container table.
#[derive(Debug, Clone, Copy, PartialEq, Eq, Structural)]
pub enum StatusStyle {
    Running,
    Stopped,
    Paused,
    Other,
}

/// The style of a status text, compared without regard to case: running
/// (holds `running` or starts with `up`), stopped (holds `exited` or
/// `stopped`), paused (holds `paused`), or other.
pub open spec fn status_style_spec(status: Seq<char>) -> StatusStyle {
    if contains_ci(status, "running"@) || starts_with_ci(status, "up"@) {
        StatusStyle::Running
    } else if contains_ci(status, "exited"@) || contains_ci(status, "stopped"@) {
        StatusStyle::Stopped
    } else if contains_ci(status, "paused"@) {
        StatusStyle::Paused
    } else {
        StatusStyle::Other
    }
}

/// Picks the style of a container's status text.
pub fn status_style(status: &str) -> (r: StatusStyle)
    ensures
        r == status_style_spec(status@),
{
    let v = chars_of(status);
    if contains_ignore_ascii_case(&v, &chars_of("running")) || starts_with_ignore_ascii_case(
        &v,
        &chars_of("up"),
    ) {
        StatusStyle::Running
    } else if contains_ignore_ascii_case(&v, &chars_of("exited")) || contains_ignore_ascii_case(
        &v,
        &chars_of("stopped"),
    ) {
        StatusStyle::Stopped
    } else if contains_ignore_ascii_case(&v, &chars_of("paused")) {
        StatusStyle::Paused
    } else {
        StatusStyle::Other
    }
}

/// A container's name and its status text.
pub struct ContainerStatus {
    pub name: String,
    pub status: String,
}

/// A change of a container seen between two polls: its name and what became
/// of it (`"<before> ➔ <after>"`, or `"stopped"` when it is gone).
pub struct ContainerEvent {
    pub name: String,
    pub status: String,
}

/// The `(name, status)` pairs of a list of containers.
pub open spec fn status_pairs(s: Seq<ContainerStatus>) -> Seq<(Seq<char>, Seq<char>)> {
    s.map_values(|e: ContainerStatus| (e.name@, e.status@))
}

/// The `(name, folded state)` pairs of a list of containers.
pub open spec fn folded_pairs(s: Seq<ContainerStatus>) -> Seq<(Seq<char>, Seq<char>)> {
    s.map_values(|e: ContainerStatus| (e.name@, container_status_kind(e.status@)))
}

/// The table that a poll gives: each container's name to its folded state,
/// a later entry overriding an earlier one of the same name.
pub open spec fn folded_table(s: Seq<ContainerStatus>) -> Map<Seq<char>, Seq<char>> {
    pairs_map(folded_pairs(s))
}

/// The `(name, status)` pairs of a list of events.
pub open spec fn event_pairs(s: Seq<ContainerEvent>) -> Seq<(Seq<char>, Seq<char>)> {
    s.map_values(|e: ContainerEvent| (e.name@, e.status@))
}

/// The events that going from table `known` to table `current` produces:
/// a container whose state changed is reported with `"<before> ➔ <after>"`,
/// one that is no longer listed with `"stopped"`. A new container produces
/// no event.
pub open spec fn container_changes(
    known: Map<Seq<char>, Seq<char>>,
    current: Map<Seq<char>, Seq<char>>,
) -> Set<(Seq<char>, Seq<char>)> {
    Set::new(
        |p: (Seq<char>, Seq<char>)|
            known.dom().contains(p.0) && if current.dom().contains(p.0) {
                known[p.0] != current[p.0] && p.1 == known[p.0] + " ➔ "@ + current[p.0]
            } else {
                p.1 == "stopped"@
            },
    )
}

/// The last known folded state of each container.
pub struct ContainerTable {
    entries: Vec<ContainerStatus>,
}

impl View for ContainerTable {
    type V = Map<Seq<char>, Seq<char>>;

    closed spec fn view(&self) -> Map<Seq<char>, Seq<char>> {
        pairs_map(status_pairs(self.entries@))
    }
}

fn copy_string(s: &String) -> (r: String)
    ensures
        r@ == s@,
{
    s.clone()
}

fn find_name(entries: &Vec<ContainerStatus>, name: &String) -> (r: Option<usize>)
    ensures
        match r {
            Some(i) => i < entries.len() && entries@[i as int].name@ == name@,
            None => forall|i: int| 0 <= i < entries.len() ==> entries@[i].name@ != name@,
        },
{
    let mut i: usize = 0;
    while i < entries.len()
        invariant
            i <= entries.len(),
            forall|j: int| 0 <= j < i ==> entries@[j].name@ != name@,
        decreases entries.len() - i,
    {
        if entries[i].name == *name {
            return Some(i);
        }
        i = i + 1;
    }
    None
}

impl ContainerTable {
    #[verifier::type_invariant]
    closed spec fn names_unique(self) -> bool {
        keys_unique(status_pairs(self.entries@))
    }

    /// A table that knows no container.
    pub fn new() -> (t: ContainerTable)
        ensures
            t@ == Map::<Seq<char>, Seq<char>>::empty(),
    {
        let t = ContainerTable { entries: Vec::new() };
        assert(status_pairs(t.entries@) =~= Seq::<(Seq<char>, Seq<char>)>::empty());
        t
    }

    /// The table of a poll: each listed container's name to the folded state
    /// of its status text.
    pub fn from_snapshot(list: &Vec<ContainerStatus>) -> (t: ContainerTable)
        ensures
            t@ == folded_table(list@),
    {
        let mut out: Vec<ContainerStatus> = Vec::new();
        let mut i: usize = 0;
        assert(folded_pairs(list@).take(0) =~= Seq::<(Seq<char>, Seq<char>)>::empty());
        assert(status_pairs(out@) =~= Seq::<(Seq<char>, Seq<char>)>::empty());
        while i < list.len()
            invariant
                i <= list.len(),
                keys_unique(status_pairs(out@)),
                pairs_map(status_pairs(out@)) == pairs_map(folded_pairs(list@).take(i as int)),
            decreases list.len() - i,
        {
            let name = copy_string(&list[i].name);
            let kind = simplify_container_status(list[i].status.as_str());
            let mut state = String::new();
            push_str(&mut state, kind);
            let ghost key = name@;
            let ghost val = state@;
            assert(folded_pairs(list@).take(i + 1).drop_last() =~= folded_pairs(list@).take(
                i as int,
            ));
            assert(folded_pairs(list@).take(i + 1).last() == (key, val));
            let ghost before = status_pairs(out@);
            match find_name(&out, &name) {
                Some(j) => {
                    proof {
                        lemma_pairs_map_update(before, j as int, val);
                    }
                    out.set(j, ContainerStatus { name, status: state });
                    assert(status_pairs(out@) =~= before.update(j as int, (before[j as int].0, val)));
                },
                None => {
                    out.push(ContainerStatus { name, status: state });
                    assert(status_pairs(out@) =~= before.push((key, val)));
                    assert(status_pairs(out@).drop_last() =~= before);
                    proof {
                        lemma_keys_unique_push(before, (key, val));
                    }
                },
            }
            i = i + 1;
        }
        assert(folded_pairs(list@).take(list.len() as int) =~= folded_pairs(list@));
        ContainerTable { entries: out }
    }

    /// The folded state last recorded for `name`, if any.
    pub fn state_of(&self, name: &str) -> (r: Option<String>)
        ensures
            match r {
                Some(s) => self@.dom().contains(name@) && s@ == self@[name@],
                None => !self@.dom().contains(name@),
            },
    {
        proof {
            use_type_invariant(self);
        }
        let mut key = String::new();
        push_str(&mut key, name);
        let ghost pairs = status_pairs(self.entries@);
        proof {
            lemma_pairs_map_dom(pairs, name@);
        }
        match find_name(&self.entries, &key) {
            Some(j) => {
                proof {
                    lemma_pairs_map_value(pairs, j as int);
                }
                Some(copy_string(&self.entries[j].status))
            },
            None => {
                assert forall|i: int| 0 <= i < pairs.len() implies #[trigger] pairs[i].0 != name@ by {
                    assert(pairs[i].0 == self.entries@[i].name@);
                }
                None
            },
        }
    }

    /// The number of containers in the table.
    pub fn len(&self) -> (n: usize)
        ensures
            n == self@.dom().len(),
    {
        proof {
            use_type_invariant(self);
            lemma_unique_map_len(status_pairs(self.entries@));
        }
        self.entries.len()
    }
}

/// With unique keys, the map holds exactly as many keys as there are pairs.
pub proof fn lemma_unique_map_len(s: Seq<(Seq<char>, Seq<char>)>)
    requires
        keys_unique(s),
    ensures
        pairs_map(s).dom().finite(),
        pairs_map(s).dom().len() == s.len(),
    decreases s.len(),
{
    if s.len() > 0 {
        let p = s.drop_last();
        assert(keys_unique(p));
        lemma_unique_map_len(p);
        lemma_pairs_map_dom(p, s.last().0);
        if pairs_map(p).dom().contains(s.last().0) {
            let i = choose|i: int| 0 <= i < p.len() && #[trigger] p[i].0 == s.last().0;
            assert(s[i].0 == s[s.len() - 1].0);
        }
    }
}

/// Compares a new poll with the known table, returns the events that the
/// change produces, and makes the poll the known table.
///
/// The events come in no particular order, each once: exactly the members of
/// `container_changes(before, after)`.
pub fn check_container_events(known: &mut ContainerTable, current: &Vec<ContainerStatus>) -> (events:
    Vec<ContainerEvent>)
    ensures
        final(known)@ == folded_table(current@),
        forall|i: int|
            0 <= i < events.len() ==> container_changes(old(known)@, folded_table(current@)).contains(
                #[trigger] event_pairs(events@)[i],
            ),
        forall|p: (Seq<char>, Seq<char>)|
            container_changes(old(known)@, folded_table(current@)).contains(p) ==> event_pairs(
                events@,
            ).contains(p),
        event_pairs(events@).no_duplicates(),
{
    proof {
        use_type_invariant(&*known);
    }
    let cur = ContainerTable::from_snapshot(current);
    proof {
        use_type_invariant(&cur);
    }
    let ghost kmap = known@;
    let ghost cmap = cur@;
    let ghost kp = status_pairs(known.entries@);
    let ghost cp = status_pairs(cur.entries@);
    let ghost changes = container_changes(kmap, cmap);
    let mut events: Vec<ContainerEvent> = Vec::new();
    let mut k: usize = 0;
    while k < cur.entries.len()
        invariant
            k <= cur.entries.len(),
            kmap == pairs_map(kp),
            cmap == pairs_map(cp),
            kp == status_pairs(known.entries@),
            cp == status_pairs(cur.entries@),
            keys_unique(kp),
            keys_unique(cp),
            changes == container_changes(kmap, cmap),
            forall|i: int|
                0 <= i < events.len() ==> changes.contains(#[trigger] event_pairs(events@)[i]),
            forall|i: int|
                0 <= i < events.len() ==> exists|j: int|
                    0 <= j < k && cp[j].0 == #[trigger] event_pairs(events@)[i].0,
            forall|i: int, i2: int|
                0 <= i < i2 < events.len() ==> event_pairs(events@)[i].0 != event_pairs(
                    events@,
                )[i2].0,
            forall|j: int|
                0 <= j < k && kmap.dom().contains(#[trigger] cp[j].0) && kmap[cp[j].0]
                    != cmap[cp[j].0] ==> event_pairs(events@).contains(
                    (cp[j].0, kmap[cp[j].0] + " ➔ "@ + cmap[cp[j].0]),
                ),
        decreases cur.entries.len() - k,
    {
        let ghost name = cp[k as int].0;
        proof {
            lemma_pairs_map_value(cp, k as int);
            lemma_pairs_map_dom(kp, name);
        }
        let found = find_name(&known.entries, &cur.entries[k].name);
        let ghost before = event_pairs(events@);
        if let Some(j) = found {
            proof {
                lemma_pairs_map_value(kp, j as int);
            }
            assert(kp[j as int].0 == name);
            if known.entries[j].status != cur.entries[k].status {
                let mut s = String::new();
                push_str(&mut s, known.entries[j].status.as_str());
                push_str(&mut s, " ➔ ");
                push_str(&mut s, cur.entries[k].status.as_str());
                let ev = ContainerEvent { name: copy_string(&cur.entries[k].name), status: s };
                events.push(ev);
                assert(event_pairs(events@) =~= before.push((name, kmap[name] + " ➔ "@ + cmap[name])));
                assert forall|i: int| 0 <= i < before.len() implies before[i].0 != name by {
                    let j2 = choose|j2: int| 0 <= j2 < k && cp[j2].0 == #[trigger] before[i].0;
                    assert(event_pairs(events@)[i] == before[i]);
                }
                assert(event_pairs(events@)[before.len() as int] == (name, kmap[name] + " ➔ "@
                    + cmap[name]));
            }
        } else {
            assert forall|i: int| 0 <= i < kp.len() implies #[trigger] kp[i].0 != name by {
                assert(kp[i].0 == known.entries@[i].name@);
            }
        }
        assert forall|i: int|
            0 <= i < events.len() implies exists|j: int|
                0 <= j < k + 1 && cp[j].0 == #[trigger] event_pairs(events@)[i].0 by {
            if i < before.len() {
                assert(event_pairs(events@)[i] == before[i]);
                let j2 = choose|j2: int| 0 <= j2 < k && cp[j2].0 == #[trigger] before[i].0;
                assert(cp[j2].0 == event_pairs(events@)[i].0);
            } else {
                assert(cp[k as int].0 == event_pairs(events@)[i].0);
            }
        }
        assert forall|j: int|
            0 <= j < k + 1 && kmap.dom().contains(#[trigger] cp[j].0) && kmap[cp[j].0]
                != cmap[cp[j].0] implies event_pairs(events@).contains(
            (cp[j].0, kmap[cp[j].0] + " ➔ "@ + cmap[cp[j].0]),
        ) by {
            if j < k {
                let q = (cp[j].0, kmap[cp[j].0] + " ➔ "@ + cmap[cp[j].0]);
                assert(before.contains(q));
                let ii = choose|ii: int| 0 <= ii < before.len() && before[ii] == q;
                assert(event_pairs(events@)[ii] == q);
            } else {
                let q = (name, kmap[name] + " ➔ "@ + cmap[name]);
                assert(event_pairs(events@)[before.len() as int] == q);
            }
        }
        k = k + 1;
    }
    assert forall|i: int| 0 <= i < events.len() implies cmap.dom().contains(
        #[trigger] event_pairs(events@)[i].0,
    ) by {
        let j = choose|j: int| 0 <= j < cur.entries.len() && cp[j].0 == #[trigger] event_pairs(
            events@,
        )[i].0;
        lemma_pairs_map_dom(cp, event_pairs(events@)[i].0);
    }
    let ghost n2 = events.len();
    let mut k2: usize = 0;
    while k2 < known.entries.len()
        invariant
            k2 <= known.entries.len(),
            n2 <= events.len(),
            kmap == pairs_map(kp),
            cmap == pairs_map(cp),
            kp == status_pairs(known.entries@),
            cp == status_pairs(cur.entries@),
            keys_unique(kp),
            keys_unique(cp),
            changes == container_changes(kmap, cmap),
            forall|i: int|
                0 <= i < events.len() ==> changes.contains(#[trigger] event_pairs(events@)[i]),
            forall|i: int|
                0 <= i < n2 ==> cmap.dom().contains(#[trigger] event_pairs(events@)[i].0),
            forall|i: int|
                n2 <= i < events.len() ==> exists|j: int|
                    0 <= j < k2 && kp[j].0 == #[trigger] event_pairs(events@)[i].0,
            forall|i: int, i2: int|
                0 <= i < i2 < events.len() ==> event_pairs(events@)[i].0 != event_pairs(
                    events@,
                )[i2].0,
            forall|j: int|
                0 <= j < cp.len() && kmap.dom().contains(#[trigger] cp[j].0) && kmap[cp[j].0]
                    != cmap[cp[j].0] ==> event_pairs(events@).contains(
                    (cp[j].0, kmap[cp[j].0] + " ➔ "@ + cmap[cp[j].0]),
                ),
            forall|j: int|
                0 <= j < k2 && !cmap.dom().contains(#[trigger] kp[j].0) ==> event_pairs(
                    events@,
                ).contains((kp[j].0, "stopped"@)),
        decreases known.entries.len() - k2,
    {
        let ghost name = kp[k2 as int].0;
        proof {
            lemma_pairs_map_value(kp, k2 as int);
            lemma_pairs_map_dom(cp, name);
        }
        let ghost before = event_pairs(events@);
        let found = find_name(&cur.entries, &known.entries[k2].name);
        if let Some(jj) = found {
            assert(cp[jj as int].0 == name);
        } else {
            assert forall|i: int| 0 <= i < cp.len() implies #[trigger] cp[i].0 != name by {
                assert(cp[i].0 == cur.entries@[i].name@);
            }
            let mut s = String::new();
            push_str(&mut s, "stopped");
            let ev = ContainerEvent { name: copy_string(&known.entries[k2].name), status: s };
            events.push(ev);
            assert(event_pairs(events@) =~= before.push((name, "stopped"@)));
            assert forall|i: int| 0 <= i < before.len() implies before[i].0 != name by {
                assert(event_pairs(events@)[i] == before[i]);
                if i < n2 {
                } else {
                    let j2 = choose|j2: int| 0 <= j2 < k2 && kp[j2].0 == #[trigger] before[i].0;
                }
            }
            assert(event_pairs(events@)[before.len() as int] == (name, "stopped"@));
        }
        assert forall|i: int| n2 <= i < events.len() implies exists|j: int|
            0 <= j < k2 + 1 && kp[j].0 == #[trigger] event_pairs(events@)[i].0 by {
            if i < before.len() {
                assert(event_pairs(events@)[i] == before[i]);
                let j2 = choose|j2: int| 0 <= j2 < k2 && kp[j2].0 == #[trigger] before[i].0;
                assert(kp[j2].0 == event_pairs(events@)[i].0);
            } else {
                assert(kp[k2 as int].0 == event_pairs(events@)[i].0);
            }
        }
        assert forall|j: int|
            0 <= j < cp.len() && kmap.dom().contains(#[trigger] cp[j].0) && kmap[cp[j].0]
                != cmap[cp[j].0] implies event_pairs(events@).contains(
            (cp[j].0, kmap[cp[j].0] + " ➔ "@ + cmap[cp[j].0]),
        ) by {
            let q = (cp[j].0, kmap[cp[j].0] + " ➔ "@ + cmap[cp[j].0]);
            assert(before.contains(q));
            let ii = choose|ii: int| 0 <= ii < before.len() && before[ii] == q;
            assert(event_pairs(events@)[ii] == q);
        }
        assert forall|j: int|
            0 <= j < k2 + 1 && !cmap.dom().contains(#[trigger] kp[j].0) implies event_pairs(
            events@,
        ).contains((kp[j].0, "stopped"@)) by {
            let q = (kp[j].0, "stopped"@);
            if j < k2 {
                assert(before.contains(q));
                let ii = choose|ii: int| 0 <= ii < before.len() && before[ii] == q;
                assert(event_pairs(events@)[ii] == q);
            } else {
                assert(event_pairs(events@)[before.len() as int] == q);
            }
        }
        k2 = k2 + 1;
    }
    assert forall|p: (Seq<char>, Seq<char>)| changes.contains(p) implies event_pairs(
        events@,
    ).contains(p) by {
        lemma_pairs_map_dom(kp, p.0);
        lemma_pairs_map_dom(cp, p.0);
        if cmap.dom().contains(p.0) {
            let j = choose|j: int| 0 <= j < cp.len() && #[trigger] cp[j].0 == p.0;
        } else {
            let j = choose|j: int| 0 <= j < kp.len() && #[trigger] kp[j].0 == p.0;
        }
    }
    assert(event_pairs(events@).no_duplicates()) by {
        assert forall|i: int, i2: int|
            0 <= i < event_pairs(events@).len() && 0 <= i2 < event_pairs(events@).len() && i
                != i2 implies event_pairs(events@)[i] != event_pairs(events@)[i2] by {
            if i < i2 {
            } else {
            }
        }
    }
    *known = cur;
    events
}

/// A poll that shows every known container in the state it was known in
/// produces no event.
pub proof fn lemma_unchanged_poll_is_quiet(m: Map<Seq<char>, Seq<char>>)
    ensures
        container_changes(m, m) == Set::<(Seq<char>, Seq<char>)>::empty(),
{
    assert(container_changes(m, m) =~= Set::<(Seq<char>, Seq<char>)>::empty());
}

/// One line of `docker stats --format "{{.Name}}\t{{.CPUPerc}}\t{{.MemUsage}}"`:
/// the name, the CPU percentage as written (without its `%`), and the memory use.
pub struct StatsRow {
    pub name: String,
    pub cpu_text: String,
    pub memory_usage: String,
}

/// One line of `docker ps -a --format "{{.Names}}\t{{.Status}}"`.
pub struct PsRow {
    pub name: String,
    pub status: String,
}

/// A container as the telemetry lists it: name and status from `docker ps`,
/// and the CPU text and memory use from `docker stats` where that listed it.
pub struct ContainerRow {
    pub name: String,
    pub status: String,
    pub cpu_text: Option<String>,
    pub memory_usage: String,
}

/// `s` without any number of trailing `c`, as `str::trim_end_matches(c)`.
pub open spec fn strip_trailing(s: Seq<char>, c: char) -> Seq<char>
    decreases s.len(),
{
    if s.len() > 0 && s.last() == c {
        strip_trailing(s.drop_last(), c)
    } else {
        s
    }
}

/// The rows that the tab-separated `docker stats` lines give: each line with
/// at least three fields, its fields trimmed and the CPU field stripped of `%`.
pub open spec fn stats_rows(lines: Seq<Seq<char>>) -> Seq<(Seq<char>, Seq<char>, Seq<char>)>
    decreases lines.len(),
{
    if lines.len() == 0 {
        seq![]
    } else {
        let prev = stats_rows(lines.drop_last());
        let f = split_on(lines.last(), '\t');
        if f.len() >= 3 {
            prev.push((trim(f[0]), strip_trailing(trim(f[1]), '%'), trim(f[2])))
        } else {
            prev
        }
    }
}

/// The rows that the tab-separated `docker ps` lines give: each line with at
/// least two fields, its name and status trimmed.
pub open spec fn ps_rows(lines: Seq<Seq<char>>) -> Seq<(Seq<char>, Seq<char>)>
    decreases lines.len(),
{
    if lines.len() == 0 {
        seq![]
    } else {
        let prev = ps_rows(lines.drop_last());
        let f = split_on(lines.last(), '\t');
        if f.len() >= 2 {
            prev.push((trim(f[0]), trim(f[1])))
        } else {
            prev
        }
    }
}

pub open spec fn stats_triples(s: Seq<StatsRow>) -> Seq<(Seq<char>, Seq<char>, Seq<char>)> {
    s.map_values(|r: StatsRow| (r.name@, r.cpu_text@, r.memory_usage@))
}

pub open spec fn ps_pairs(s: Seq<PsRow>) -> Seq<(Seq<char>, Seq<char>)> {
    s.map_values(|r: PsRow| (r.name@, r.status@))
}

/// The CPU text and memory use of the last stats row named `n`.
pub open spec fn last_stats_for(s: Seq<(Seq<char>, Seq<char>, Seq<char>)>, n: Seq<char>) -> Option<
    (Seq<char>, Seq<char>),
>
    decreases s.len(),
{
    if s.len() == 0 {
        None
    } else if s.last().0 == n {
        Some((s.last().1, s.last().2))
    } else {
        last_stats_for(s.drop_last(), n)
    }
}

/// An earlier `docker ps` row has the same name as row `k`.
pub open spec fn named_before(p: Seq<(Seq<char>, Seq<char>)>, k: int) -> bool {
    exists|j: int| 0 <= j < k && #[trigger] p[j].0 == p[k].0
}

/// The stats that the `k`-th `docker ps` row gets: those of the last stats row
/// of its name, unless an earlier `ps` row of that name took them already.
pub open spec fn stats_taken(
    s: Seq<(Seq<char>, Seq<char>, Seq<char>)>,
    p: Seq<(Seq<char>, Seq<char>)>,
    k: int,
) -> Option<(Seq<char>, Seq<char>)> {
    if named_before(p, k) {
        None
    } else {
        last_stats_for(s, p[k].0)
    }
}

/// The memory text a container without stats is shown with.
pub open spec fn no_stats_memory() -> Seq<char> {
    "0B / 0B"@
}

/// Parses the output of `docker stats` into rows.
pub fn parse_docker_stats(text: &str) -> (rows: Vec<StatsRow>)
    ensures
        stats_triples(rows@) == stats_rows(split_lines(text@)),
{
    let v = chars_of(text);
    let lines = split_lines_of(&v);
    let mut rows: Vec<StatsRow> = Vec::new();
    let mut i: usize = 0;
    assert(views(lines@).take(0) =~= Seq::<Seq<char>>::empty());
    assert(stats_triples(rows@) =~= Seq::<(Seq<char>, Seq<char>, Seq<char>)>::empty());
    while i < lines.len()
        invariant
            i <= lines.len(),
            views(lines@) == split_lines(text@),
            stats_triples(rows@) == stats_rows(views(lines@).take(i as int)),
        decreases lines.len() - i,
    {
        let ghost pre = views(lines@).take(i + 1);
        assert(pre.drop_last() =~= views(lines@).take(i as int));
        assert(pre.last() == lines@[i as int]@);
        let f = split_char(&lines[i], '\t');
        if f.len() >= 3 {
            assert(views(f@)[0] == f@[0]@ && views(f@)[1] == f@[1]@ && views(f@)[2] == f@[2]@);
            let name = trim_chars(&f[0]);
            let cpu = trim_chars(&f[1]);
            let cpu = strip_trailing_chars(&cpu, '%');
            let mem = trim_chars(&f[2]);
            let ghost before = stats_triples(rows@);
            rows.push(
                StatsRow {
                    name: string_of(&name),
                    cpu_text: string_of(&cpu),
                    memory_usage: string_of(&mem),
                },
            );
            assert(stats_triples(rows@) =~= before.push((name@, cpu@, mem@)));
        }
        i = i + 1;
    }
    assert(views(lines@).take(lines.len() as int) =~= views(lines@));
    rows
}

/// Parses the output of `docker ps` into rows.
pub fn parse_docker_ps(text: &str) -> (rows: Vec<PsRow>)
    ensures
        ps_pairs(rows@) == ps_rows(split_lines(text@)),
{
    let v = chars_of(text);
    let lines = split_lines_of(&v);
    let mut rows: Vec<PsRow> = Vec::new();
    let mut i: usize = 0;
    assert(views(lines@).take(0) =~= Seq::<Seq<char>>::empty());
    assert(ps_pairs(rows@) =~= Seq::<(Seq<char>, Seq<char>)>::empty());
    while i < lines.len()
        invariant
            i <= lines.len(),
            views(lines@) == split_lines(text@),
            ps_pairs(rows@) == ps_rows(views(lines@).take(i as int)),
        decreases lines.len() - i,
    {
        let ghost pre = views(lines@).take(i + 1);
        assert(pre.drop_last() =~= views(lines@).take(i as int));
        assert(pre.last() == lines@[i as int]@);
        let f = split_char(&lines[i], '\t');
        if f.len() >= 2 {
            assert(views(f@)[0] == f@[0]@ && views(f@)[1] == f@[1]@);
            let name = trim_chars(&f[0]);
            let status = trim_chars(&f[1]);
            let ghost before = ps_pairs(rows@);
            rows.push(PsRow { name: string_of(&name), status: string_of(&status) });
            assert(ps_pairs(rows@) =~= before.push((name@, status@)));
        }
        i = i + 1;
    }
    assert(views(lines@).take(lines.len() as int) =~= views(lines@));
    rows
}

/// `v` without any number of trailing `c`.
pub fn strip_trailing_chars(v: &Vec<char>, c: char) -> (r: Vec<char>)
    ensures
        r@ == strip_trailing(v@, c),
{
    let mut hi = v.len();
    assert(v@.subrange(0, hi as int) =~= v@);
    while hi > 0 && v[hi - 1] == c
        invariant
            hi <= v.len(),
            strip_trailing(v@, c) == strip_trailing(v@.subrange(0, hi as int), c),
        decreases hi,
    {
        assert(v@.subrange(0, hi as int).drop_last() =~= v@.subrange(0, hi - 1));
        hi = hi - 1;
    }
    let mut r: Vec<char> = Vec::new();
    let mut i: usize = 0;
    while i < hi
        invariant
            i <= hi <= v.len(),
            r@ == v@.subrange(0, i as int),
        decreases hi - i,
    {
        r.push(v[i]);
        assert(v@.subrange(0, i + 1) =~= v@.subrange(0, i as int).push(v@[i as int]));
        i = i + 1;
    }
    r
}

/// Whether an earlier `ps` row than row `k` has the name of row `k`.
fn ps_name_before(ps: &Vec<PsRow>, k: usize) -> (b: bool)
    requires
        k < ps.len(),
    ensures
        b == named_before(ps_pairs(ps@), k as int),
{
    let ghost p = ps_pairs(ps@);
    let mut j: usize = 0;
    while j < k
        invariant
            j <= k < ps.len(),
            p == ps_pairs(ps@),
            forall|i: int| 0 <= i < j ==> p[i].0 != p[k as int].0,
        decreases k - j,
    {
        if ps[j].name == ps[k].name {
            assert(p[j as int].0 == p[k as int].0);
            return true;
        }
        j = j + 1;
    }
    false
}

/// The index of the last stats row named `name`.
fn last_stats_index(stats: &Vec<StatsRow>, name: &String) -> (r: Option<usize>)
    ensures
        match r {
            Some(i) => i < stats.len() && last_stats_for(stats_triples(stats@), name@) == Some(
                (stats@[i as int].cpu_text@, stats@[i as int].memory_usage@),
            ),
            None => last_stats_for(stats_triples(stats@), name@) is None,
        },
{
    let ghost s = stats_triples(stats@);
    let mut i = stats.len();
    assert(s.take(i as int) =~= s);
    while i > 0
        invariant
            i <= stats.len(),
            s == stats_triples(stats@),
            last_stats_for(s, name@) == last_stats_for(s.take(i as int), name@),
        decreases i,
    {
        let ghost t = s.take(i as int);
        assert(t.last() == s[i - 1]);
        if stats[i - 1].name == *name {
            return Some(i - 1);
        }
        assert(t.drop_last() =~= s.take(i - 1));
        i = i - 1;
    }
    None
}

/// Joins the `docker ps` rows with the `docker stats` rows by name. Each
/// `ps` row takes the stats of the last stats row of its name; a name that
/// an earlier `ps` row already took, or that no stats row holds, gets no CPU
/// text and the memory text `"0B / 0B"`.
pub fn merge_container_rows(stats: &Vec<StatsRow>, ps: &Vec<PsRow>) -> (rows: Vec<ContainerRow>)
    ensures
        rows.len() == ps.len(),
        forall|k: int|
            0 <= k < ps.len() ==> {
                let r = #[trigger] rows@[k];
                let taken = stats_taken(stats_triples(stats@), ps_pairs(ps@), k);
                &&& r.name@ == ps@[k].name@
                &&& r.status@ == ps@[k].status@
                &&& match taken {
                    Some(t) => r.cpu_text is Some && r.cpu_text->0@ == t.0 && r.memory_usage@
                        == t.1,
                    None => r.cpu_text is None && r.memory_usage@ == no_stats_memory(),
                }
            },
{
    let mut rows: Vec<ContainerRow> = Vec::new();
    let mut k: usize = 0;
    while k < ps.len()
        invariant
            k <= ps.len(),
            rows.len() == k,
            forall|k2: int|
                0 <= k2 < k ==> {
                    let r = #[trigger] rows@[k2];
                    let taken = stats_taken(stats_triples(stats@), ps_pairs(ps@), k2);
                    &&& r.name@ == ps@[k2].name@
                    &&& r.status@ == ps@[k2].status@
                    &&& match taken {
                        Some(t) => r.cpu_text is Some && r.cpu_text->0@ == t.0
                            && r.memory_usage@ == t.1,
                        None => r.cpu_text is None && r.memory_usage@ == no_stats_memory(),
                    }
                },
        decreases ps.len() - k,
    {
        let name = copy_string(&ps[k].name);
        let status = copy_string(&ps[k].status);
        let seen = ps_name_before(ps, k);
        let found = if seen {
            None
        } else {
            last_stats_index(stats, &ps[k].name)
        };
        let row = match found {
            Some(i) => ContainerRow {
                name,
                status,
                cpu_text: Some(copy_string(&stats[i].cpu_text)),
                memory_usage: copy_string(&stats[i].memory_usage),
            },
            None => {
                let mut mem = String::new();
                push_str(&mut mem, "0B / 0B");
                ContainerRow { name, status, cpu_text: None, memory_usage: mem }
            },
        };
        rows.push(row);
        k = k + 1;
    }
    rows
}

} // verus!
