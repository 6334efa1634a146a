//! Remote SSH sessions: reading them from `w -h` or `ss` output, and the
//! logins and logouts that a change between two polls produces.
use vstd::prelude::*;
use crate::table::{
    keys_unique, lemma_keys_unique_push, lemma_pairs_map_dom, lemma_pairs_map_update,
    lemma_pairs_map_value, pairs_map,
};
use crate::text::{
    chars_of, push_chars, push_str, split_char, split_lines, split_lines_of, split_on, split_ws,
    string_of, string_of_range, tokens, views,
};

verus! {

/// One remote session.
pub struct SshSession {
    pub user: String,
    pub client_ip: String,
    pub tty_or_port: String,
    pub connected_at: String,
}

/// The fields of a session: user, client address, terminal or port, and when
/// it connected.
pub open spec fn session_view(s: SshSession) -> (Seq<char>, Seq<char>, Seq<char>, Seq<char>) {
    (s.user@, s.client_ip@, s.tty_or_port@, s.connected_at@)
}

pub open spec fn session_views(s: Seq<SshSession>) -> Seq<(Seq<char>, Seq<char>, Seq<char>, Seq<char>)> {
    s.map_values(|x: SshSession| session_view(x))
}

pub open spec fn is_paren(c: char) -> bool {
    c == '(' || c == ')'
}

/// `s` without leading parentheses.
pub open spec fn strip_parens_start(s: Seq<char>) -> Seq<char>
    decreases s.len(),
{
    if s.len() > 0 && is_paren(s[0]) {
        strip_parens_start(s.drop_first())
    } else {
        s
    }
}

/// `s` without trailing parentheses.
pub open spec fn strip_parens_end(s: Seq<char>) -> Seq<char>
    decreases s.len(),
{
    if s.len() > 0 && is_paren(s.last()) {
        strip_parens_end(s.drop_last())
    } else {
        s
    }
}

/// `s` without leading and trailing `(` and `)`, as
/// `str::trim_matches(|c| c == '(' || c == ')')`.
pub open spec fn strip_parens(s: Seq<char>) -> Seq<char> {
    strip_parens_end(strip_parens_start(s))
}

/// The sessions that the lines of `w -h` list: each line with at least four
/// whitespace-separated fields gives user, terminal, client (without its
/// parentheses) and login time.
pub open spec fn w_sessions(lines: Seq<Seq<char>>) -> Seq<(Seq<char>, Seq<char>, Seq<char>, Seq<char>)>
    decreases lines.len(),
{
    if lines.len() == 0 {
        seq![]
    } else {
        let prev = w_sessions(lines.drop_last());
        let t = tokens(lines.last());
        if t.len() >= 4 {
            prev.push((t[0], strip_parens(t[2]), t[1], t[3]))
        } else {
            prev
        }
    }
}

/// The position of the last `c` in `s`.
pub open spec fn last_index_of(s: Seq<char>, c: char) -> Option<int>
    decreases s.len(),
{
    if s.len() == 0 {
        None
    } else if s.last() == c {
        Some(s.len() - 1)
    } else {
        last_index_of(s.drop_last(), c)
    }
}

/// `str::rsplit_once(':')`, with the whole text and an empty port where there
/// is no colon.
pub open spec fn split_address(s: Seq<char>) -> (Seq<char>, Seq<char>) {
    match last_index_of(s, ':') {
        Some(i) => (s.take(i), s.skip(i + 1)),
        None => (s, seq![]),
    }
}

/// The sessions that the lines of `ss -tn state established '( sport = :22 )'`
/// list, after its header line: each line with at least four fields gives
/// a session of user `ssh-client` from the peer address of the fourth field.
pub open spec fn ss_sessions(lines: Seq<Seq<char>>) -> Seq<(Seq<char>, Seq<char>, Seq<char>, Seq<char>)>
    decreases lines.len(),
{
    if lines.len() <= 1 {
        seq![]
    } else {
        let prev = ss_sessions(lines.drop_last());
        let t = tokens(lines.last());
        if t.len() >= 4 {
            let (ip, port) = split_address(t[3]);
            prev.push(("ssh-client"@, ip, "port "@ + port, "active"@))
        } else {
            prev
        }
    }
}

fn strip_parens_chars(v: &Vec<char>) -> (r: Vec<char>)
    ensures
        r@ == strip_parens(v@),
{
    let n = v.len();
    let mut lo: usize = 0;
    assert(v@.subrange(0, n as int) =~= v@);
    while lo < n && (v[lo] == '(' || v[lo] == ')')
        invariant
            lo <= n == v.len(),
            strip_parens_start(v@) == strip_parens_start(v@.subrange(lo as int, n as int)),
        decreases n - lo,
    {
        assert(v@.subrange(lo as int, n as int).drop_first() =~= v@.subrange(lo + 1, n as int));
        lo = lo + 1;
    }
    let mut hi: usize = n;
    while hi > lo && (v[hi - 1] == '(' || v[hi - 1] == ')')
        invariant
            lo <= hi <= n == v.len(),
            strip_parens_start(v@) == v@.subrange(lo as int, n as int),
            strip_parens(v@) == strip_parens_end(v@.subrange(lo as int, hi as int)),
        decreases hi - lo,
    {
        assert(v@.subrange(lo as int, hi as int).drop_last() =~= v@.subrange(lo as int, hi - 1));
        hi = hi - 1;
    }
    let mut r: Vec<char> = Vec::new();
    let mut i = lo;
    while i < hi
        invariant
            lo <= i <= hi <= n == v.len(),
            r@ == v@.subrange(lo as int, i as int),
        decreases hi - i,
    {
        r.push(v[i]);
        assert(v@.subrange(lo as int, i + 1) =~= v@.subrange(lo as int, i as int).push(v@[i as int]));
        i = i + 1;
    }
    r
}

fn split_address_chars(v: &Vec<char>) -> (r: (Vec<char>, Vec<char>))
    ensures
        (r.0@, r.1@) == split_address(v@),
{
    let mut i = v.len();
    assert(v@.take(i as int) =~= v@);
    while i > 0
        invariant
            i <= v.len(),
            last_index_of(v@, ':') == last_index_of(v@.take(i as int), ':'),
        decreases i,
    {
        let ghost t = v@.take(i as int);
        assert(t.last() == v@[i - 1]);
        if v[i - 1] == ':' {
            let mut ip: Vec<char> = Vec::new();
            let mut j: usize = 0;
            while j < i - 1
                invariant
                    j <= i - 1 < v.len(),
                    ip@ == v@.take(j as int),
                decreases i - 1 - j,
            {
                ip.push(v[j]);
                assert(v@.take(j + 1) =~= v@.take(j as int).push(v@[j as int]));
                j = j + 1;
            }
            let mut port: Vec<char> = Vec::new();
            let mut j2: usize = i;
            assert(v@.subrange(i as int, i as int) =~= Seq::<char>::empty());
            while j2 < v.len()
                invariant
                    i <= j2 <= v.len(),
                    port@ == v@.subrange(i as int, j2 as int),
                decreases v.len() - j2,
            {
                port.push(v[j2]);
                assert(v@.subrange(i as int, j2 + 1) =~= v@.subrange(i as int, j2 as int).push(
                    v@[j2 as int],
                ));
                j2 = j2 + 1;
            }
            assert(v@.skip(i as int) =~= v@.subrange(i as int, v.len() as int));
            return (ip, port);
        }
        assert(t.drop_last() =~= v@.take(i - 1));
        i = i - 1;
    }
    let mut all: Vec<char> = Vec::new();
    let mut j: usize = 0;
    while j < v.len()
        invariant
            j <= v.len(),
            all@ == v@.take(j as int),
        decreases v.len() - j,
    {
        all.push(v[j]);
        assert(v@.take(j + 1) =~= v@.take(j as int).push(v@[j as int]));
        j = j + 1;
    }
    assert(v@.take(v.len() as int) =~= v@);
    (all, Vec::new())
}

/// Parses the output of `w -h` into sessions.
pub fn parse_w_output(text: &str) -> (sessions: Vec<SshSession>)
    ensures
        session_views(sessions@) == w_sessions(split_lines(text@)),
{
    let v = chars_of(text);
    let lines = split_lines_of(&v);
    let mut out: Vec<SshSession> = Vec::new();
    let mut i: usize = 0;
    assert(views(lines@).take(0) =~= Seq::<Seq<char>>::empty());
    assert(session_views(out@) =~= Seq::<(Seq<char>, Seq<char>, Seq<char>, Seq<char>)>::empty());
    while i < lines.len()
        invariant
            i <= lines.len(),
            views(lines@) == split_lines(text@),
            session_views(out@) == w_sessions(views(lines@).take(i as int)),
        decreases lines.len() - i,
    {
        let ghost pre = views(lines@).take(i + 1);
        assert(pre.drop_last() =~= views(lines@).take(i as int));
        assert(pre.last() == lines@[i as int]@);
        let t = split_ws(&lines[i]);
        if t.len() >= 4 {
            assert(views(t@)[0] == t@[0]@ && views(t@)[1] == t@[1]@ && views(t@)[2] == t@[2]@
                && views(t@)[3] == t@[3]@);
            let ip = strip_parens_chars(&t[2]);
            let ghost before = session_views(out@);
            let s = SshSession {
                user: string_of(&t[0]),
                client_ip: string_of(&ip),
                tty_or_port: string_of(&t[1]),
                connected_at: string_of(&t[3]),
            };
            out.push(s);
            assert(session_views(out@) =~= before.push((t@[0]@, ip@, t@[1]@, t@[3]@)));
        }
        i = i + 1;
    }
    assert(views(lines@).take(lines.len() as int) =~= views(lines@));
    out
}

/// Parses the output of `ss -tn state established '( sport = :22 )'` into
/// sessions; the first line is a header.
pub fn parse_ss_output(text: &str) -> (sessions: Vec<SshSession>)
    ensures
        session_views(sessions@) == ss_sessions(split_lines(text@)),
{
    let v = chars_of(text);
    let lines = split_lines_of(&v);
    let mut out: Vec<SshSession> = Vec::new();
    if lines.len() == 0 {
        assert(session_views(out@) =~= Seq::<(Seq<char>, Seq<char>, Seq<char>, Seq<char>)>::empty());
        return out;
    }
    let mut i: usize = 1;
    assert(session_views(out@) =~= Seq::<(Seq<char>, Seq<char>, Seq<char>, Seq<char>)>::empty());
    while i < lines.len()
        invariant
            1 <= i <= lines.len(),
            views(lines@) == split_lines(text@),
            session_views(out@) == ss_sessions(views(lines@).take(i as int)),
        decreases lines.len() - i,
    {
        let ghost pre = views(lines@).take(i + 1);
        assert(pre.drop_last() =~= views(lines@).take(i as int));
        assert(pre.last() == lines@[i as int]@);
        let t = split_ws(&lines[i]);
        if t.len() >= 4 {
            assert(views(t@)[3] == t@[3]@);
            let (ip, port) = split_address_chars(&t[3]);
            let mut tty = String::new();
            push_str(&mut tty, "port ");
            push_chars(&mut tty, &port);
            let mut user = String::new();
            push_str(&mut user, "ssh-client");
            let mut connected = String::new();
            push_str(&mut connected, "active");
            let ghost before = session_views(out@);
            let s = SshSession {
                user,
                client_ip: string_of(&ip),
                tty_or_port: tty,
                connected_at: connected,
            };
            out.push(s);
            assert(session_views(out@) =~= before.push(
                ("ssh-client"@, ip@, "port "@ + port@, "active"@),
            ));
        }
        i = i + 1;
    }
    assert(views(lines@).take(lines.len() as int) =~= views(lines@));
    out
}

/// The key under which a session is remembered: `"<user>:<client>"`.
pub open spec fn session_key_of(user: Seq<char>, ip: Seq<char>) -> Seq<char> {
    user + seq![':'] + ip
}

/// The position of the first `:` in `k`, or its length where it holds none.
pub open spec fn first_colon(k: Seq<char>) -> int
    decreases k.len(),
{
    if k.len() == 0 || k[0] == ':' {
        0
    } else {
        1 + first_colon(k.drop_first())
    }
}

/// The user part of a key: the text before its first `:`.
pub open spec fn key_user(k: Seq<char>) -> Seq<char> {
    k.take(first_colon(k))
}

/// The client part of a key: all the text after its first `:` (an IPv6
/// client address keeps its own colons), or `"unknown"` where the key holds
/// no `:`.
pub open spec fn key_ip(k: Seq<char>) -> Seq<char> {
    if first_colon(k) < k.len() {
        k.skip(first_colon(k) + 1)
    } else {
        "unknown"@
    }
}

/// The first `:` stands at `i` when none stands before it and `i` is the end
/// or holds one.
proof fn lemma_first_colon_at(k: Seq<char>, i: int)
    requires
        0 <= i <= k.len(),
        forall|j: int| 0 <= j < i ==> k[j] != ':',
        i == k.len() || k[i] == ':',
    ensures
        first_colon(k) == i,
    decreases i,
{
    if i > 0 {
        lemma_first_colon_at(k.drop_first(), i - 1);
    }
}

/// The user of a session key is the user it was made from, and its client the
/// whole client address, when the user holds no `:`.
pub proof fn lemma_key_parts_round_trip(user: Seq<char>, ip: Seq<char>)
    requires
        forall|j: int| 0 <= j < user.len() ==> user[j] != ':',
    ensures
        key_user(session_key_of(user, ip)) == user,
        key_ip(session_key_of(user, ip)) == ip,
{
    let k = session_key_of(user, ip);
    lemma_first_colon_at(k, user.len() as int);
    assert(k.take(user.len() as int) =~= user);
    assert(k.skip(user.len() + 1int) =~= ip);
}

/// Whole seconds from `since_ms` to `now_ms`, zero if `now_ms` is earlier.
pub open spec fn elapsed_secs(since_ms: u64, now_ms: u64) -> u64 {
    if now_ms >= since_ms {
        ((now_ms - since_ms) / 1000) as u64
    } else {
        0
    }
}

/// The `(key, client)` pairs of a poll.
pub open spec fn current_pairs(s: Seq<SshSession>) -> Seq<(Seq<char>, Seq<char>)> {
    s.map_values(|x: SshSession| (session_key_of(x.user@, x.client_ip@), x.client_ip@))
}

/// The sessions of a poll by key: each key to the client it was seen from,
/// a later session overriding an earlier one with the same key.
pub open spec fn current_table(s: Seq<SshSession>) -> Map<Seq<char>, Seq<char>> {
    pairs_map(current_pairs(s))
}

/// A login or a logout.
#[derive(Debug, Clone, Copy, PartialEq, Eq, Structural)]
pub enum SshEventKind {
    Login,
    Logout,
}

/// A session that appeared or disappeared between two polls, with the key it
/// is remembered under. A logout carries how long the session was known.
pub struct SshEvent {
    pub kind: SshEventKind,
    pub session_key: String,
    pub user: String,
    pub client_ip: String,
    pub duration_secs: u64,
}

/// `e` is the event that key `e.session_key` gives when going from the known
/// table `known` (key to first-seen time) to the poll `current` at `now_ms`.
pub open spec fn ssh_event_ok(
    e: SshEvent,
    known: Map<Seq<char>, u64>,
    current: Map<Seq<char>, Seq<char>>,
    now_ms: u64,
) -> bool {
    let k = e.session_key@;
    match e.kind {
        SshEventKind::Login => {
            &&& current.dom().contains(k)
            &&& !known.dom().contains(k)
            &&& e.user@ == key_user(k)
            &&& e.client_ip@ == current[k]
            &&& e.duration_secs == 0
        },
        SshEventKind::Logout => {
            &&& known.dom().contains(k)
            &&& !current.dom().contains(k)
            &&& e.user@ == key_user(k)
            &&& e.client_ip@ == key_ip(k)
            &&& e.duration_secs == elapsed_secs(known[k], now_ms)
        },
    }
}

/// The known table after a poll: the keys of the poll, each with the time it
/// was first seen (`now_ms` for a new one).
pub open spec fn next_known(
    known: Map<Seq<char>, u64>,
    current: Map<Seq<char>, Seq<char>>,
    now_ms: u64,
) -> Map<Seq<char>, u64> {
    Map::new(
        |k: Seq<char>| current.dom().contains(k),
        |k: Seq<char>|
            if known.dom().contains(k) {
                known[k]
            } else {
                now_ms
            },
    )
}

/// A remembered session key and when it was first seen, in milliseconds.
pub struct KnownSession {
    pub session_key: String,
    pub since_ms: u64,
}

pub open spec fn known_pairs(s: Seq<KnownSession>) -> Seq<(Seq<char>, u64)> {
    s.map_values(|x: KnownSession| (x.session_key@, x.since_ms))
}

/// The sessions seen so far, each with the time it was first seen.
pub struct SshTracker {
    entries: Vec<KnownSession>,
}

impl View for SshTracker {
    type V = Map<Seq<char>, u64>;

    closed spec fn view(&self) -> Map<Seq<char>, u64> {
        pairs_map(known_pairs(self.entries@))
    }
}

fn copy_string(s: &String) -> (r: String)
    ensures
        r@ == s@,
{
    s.clone()
}

/// The key of a session: `"<user>:<client>"`.
pub fn session_key(user: &str, client_ip: &str) -> (k: String)
    ensures
        k@ == session_key_of(user@, client_ip@),
{
    let mut k = String::new();
    push_str(&mut k, user);
    push_str(&mut k, ":");
    push_str(&mut k, client_ip);
    proof {
        reveal_strlit(":");
    }
    assert(k@ =~= session_key_of(user@, client_ip@));
    k
}

fn key_parts(k: &String) -> (r: (String, String))
    ensures
        r.0@ == key_user(k@),
        r.1@ == key_ip(k@),
{
    let v = chars_of(k.as_str());
    let mut i: usize = 0;
    while i < v.len() && v[i] != ':'
        invariant
            i <= v.len(),
            forall|j: int| 0 <= j < i ==> v@[j] != ':',
        decreases v.len() - i,
    {
        i = i + 1;
    }
    proof {
        lemma_first_colon_at(v@, i as int);
    }
    let user = string_of_range(&v, 0, i);
    assert(v@.subrange(0, i as int) =~= v@.take(i as int));
    if i < v.len() {
        let ip = string_of_range(&v, i + 1, v.len());
        assert(v@.subrange(i + 1, v.len() as int) =~= v@.skip(i + 1));
        (user, ip)
    } else {
        let mut unknown = String::new();
        push_str(&mut unknown, "unknown");
        proof {
            reveal_strlit("unknown");
        }
        assert(unknown@ =~= "unknown"@);
        (user, unknown)
    }
}

/// A split always has at least one piece.
pub proof fn lemma_split_nonempty(s: Seq<char>, c: char)
    ensures
        split_on(s, c).len() >= 1,
    decreases s.len(),
{
    if s.len() > 0 {
        lemma_split_nonempty(s.drop_last(), c);
    }
}

fn find_pair(entries: &Vec<(String, String)>, key: &String) -> (r: Option<usize>)
    ensures
        match r {
            Some(i) => i < entries.len() && entries@[i as int].0@ == key@,
            None => forall|i: int| 0 <= i < entries.len() ==> entries@[i].0@ != key@,
        },
{
    let mut i: usize = 0;
    while i < entries.len()
        invariant
            i <= entries.len(),
            forall|j: int| 0 <= j < i ==> entries@[j].0@ != key@,
        decreases entries.len() - i,
    {
        if entries[i].0 == *key {
            return Some(i);
        }
        i = i + 1;
    }
    None
}

fn find_known(entries: &Vec<KnownSession>, key: &String) -> (r: Option<usize>)
    ensures
        match r {
            Some(i) => i < entries.len() && entries@[i as int].session_key@ == key@,
            None => forall|i: int| 0 <= i < entries.len() ==> entries@[i].session_key@ != key@,
        },
{
    let mut i: usize = 0;
    while i < entries.len()
        invariant
            i <= entries.len(),
            forall|j: int| 0 <= j < i ==> entries@[j].session_key@ != key@,
        decreases entries.len() - i,
    {
        if entries[i].session_key == *key {
            return Some(i);
        }
        i = i + 1;
    }
    None
}

pub open spec fn string_pairs(s: Seq<(String, String)>) -> Seq<(Seq<char>, Seq<char>)> {
    s.map_values(|x: (String, String)| (x.0@, x.1@))
}

/// The sessions of a poll by key, without repeated keys.
fn current_entries(sessions: &Vec<SshSession>) -> (out: Vec<(String, String)>)
    ensures
        keys_unique(string_pairs(out@)),
        pairs_map(string_pairs(out@)) == current_table(sessions@),
{
    let mut out: Vec<(String, String)> = Vec::new();
    let mut i: usize = 0;
    assert(current_pairs(sessions@).take(0) =~= Seq::<(Seq<char>, Seq<char>)>::empty());
    assert(string_pairs(out@) =~= Seq::<(Seq<char>, Seq<char>)>::empty());
    while i < sessions.len()
        invariant
            i <= sessions.len(),
            keys_unique(string_pairs(out@)),
            pairs_map(string_pairs(out@)) == pairs_map(current_pairs(sessions@).take(i as int)),
        decreases sessions.len() - i,
    {
        let key = session_key(sessions[i].user.as_str(), sessions[i].client_ip.as_str());
        let ip = copy_string(&sessions[i].client_ip);
        let ghost k = key@;
        let ghost val = ip@;
        assert(current_pairs(sessions@).take(i + 1).drop_last() =~= current_pairs(sessions@).take(
            i as int,
        ));
        assert(current_pairs(sessions@).take(i + 1).last() == (k, val));
        let ghost before = string_pairs(out@);
        match find_pair(&out, &key) {
            Some(j) => {
                proof {
                    lemma_pairs_map_update(before, j as int, val);
                }
                out.set(j, (key, ip));
                assert(string_pairs(out@) =~= before.update(j as int, (before[j as int].0, val)));
            },
            None => {
                out.push((key, ip));
                assert(string_pairs(out@) =~= before.push((k, val)));
                assert(string_pairs(out@).drop_last() =~= before);
                proof {
                    lemma_keys_unique_push(before, (k, val));
                }
            },
        }
        i = i + 1;
    }
    assert(current_pairs(sessions@).take(sessions.len() as int) =~= current_pairs(sessions@));
    out
}

impl SshTracker {
    #[verifier::type_invariant]
    closed spec fn keys_are_unique(self) -> bool {
        keys_unique(known_pairs(self.entries@))
    }

    /// A tracker that knows no session.
    pub fn new() -> (t: SshTracker)
        ensures
            t@ == Map::<Seq<char>, u64>::empty(),
    {
        let t = SshTracker { entries: Vec::new() };
        assert(known_pairs(t.entries@) =~= Seq::<(Seq<char>, u64)>::empty());
        t
    }

    /// A tracker that knows the sessions of a first poll, all first seen at
    /// `now_ms`.
    pub fn from_sessions(sessions: &Vec<SshSession>, now_ms: u64) -> (t: SshTracker)
        ensures
            t@ == next_known(Map::<Seq<char>, u64>::empty(), current_table(sessions@), now_ms),
    {
        let mut t = SshTracker::new();
        let _ = t.check_ssh_events(sessions, now_ms);
        t
    }

    /// When the session with key `key` was first seen, if it is known.
    pub fn since_of(&self, key: &str) -> (r: Option<u64>)
        ensures
            match r {
                Some(t) => self@.dom().contains(key@) && t == self@[key@],
                None => !self@.dom().contains(key@),
            },
    {
        proof {
            use_type_invariant(self);
        }
        let mut k = String::new();
        push_str(&mut k, key);
        let ghost pairs = known_pairs(self.entries@);
        proof {
            lemma_pairs_map_dom(pairs, key@);
        }
        match find_known(&self.entries, &k) {
            Some(j) => {
                proof {
                    lemma_pairs_map_value(pairs, j as int);
                }
                Some(self.entries[j].since_ms)
            },
            None => {
                assert forall|i: int| 0 <= i < pairs.len() implies #[trigger] pairs[i].0 != key@ by {
                    assert(pairs[i].0 == self.entries@[i].session_key@);
                }
                None
            },
        }
    }

    /// Compares a new poll, taken at `now_ms`, with the known sessions:
    /// reports a login for each new key and a logout for each key no longer
    /// listed, and remembers the keys of the poll.
    ///
    /// The events come in no particular order, one for each such key.
    pub fn check_ssh_events(&mut self, sessions: &Vec<SshSession>, now_ms: u64) -> (events: Vec<
        SshEvent,
    >)
        ensures
            final(self)@ == next_known(old(self)@, current_table(sessions@), now_ms),
            forall|i: int|
                0 <= i < events.len() ==> ssh_event_ok(
                    #[trigger] events@[i],
                    old(self)@,
                    current_table(sessions@),
                    now_ms,
                ),
            forall|i: int, j: int|
                0 <= i < j < events.len() ==> events@[i].session_key@ != events@[j].session_key@,
            forall|k: Seq<char>|
                current_table(sessions@).dom().contains(k) != old(self)@.dom().contains(k) ==> exists|
                    i: int,
                | 0 <= i < events.len() && (#[trigger] events@[i]).session_key@ == k,
    {
        proof {
            use_type_invariant(&*self);
        }
        let cur = current_entries(sessions);
        let ghost kmap = self@;
        let ghost cmap = current_table(sessions@);
        let ghost kp = known_pairs(self.entries@);
        let ghost cp = string_pairs(cur@);
        let mut events: Vec<SshEvent> = Vec::new();
        let mut next: Vec<KnownSession> = Vec::new();
        let mut k: usize = 0;
        while k < cur.len()
            invariant
                k <= cur.len(),
                kmap == pairs_map(kp),
                cmap == pairs_map(cp),
                kp == known_pairs(self.entries@),
                cp == string_pairs(cur@),
                keys_unique(kp),
                keys_unique(cp),
                next.len() == k,
                forall|j: int|
                    0 <= j < k ==> (#[trigger] known_pairs(next@)[j]).0 == cp[j].0 && known_pairs(
                        next@,
                    )[j].1 == (if kmap.dom().contains(cp[j].0) {
                        kmap[cp[j].0]
                    } else {
                        now_ms
                    }),
                forall|i: int|
                    0 <= i < events.len() ==> ssh_event_ok(#[trigger] events@[i], kmap, cmap, now_ms),
                forall|i: int|
                    0 <= i < events.len() ==> exists|j: int|
                        0 <= j < k && cp[j].0 == (#[trigger] events@[i]).session_key@,
                forall|i: int, i2: int|
                    0 <= i < i2 < events.len() ==> events@[i].session_key@ != events@[i2].session_key@,
                forall|j: int|
                    0 <= j < k && !kmap.dom().contains(#[trigger] cp[j].0) ==> exists|i: int|
                        0 <= i < events.len() && (#[trigger] events@[i]).session_key@ == cp[j].0,
            decreases cur.len() - k,
        {
            let ghost name = cp[k as int].0;
            proof {
                lemma_pairs_map_value(cp, k as int);
                lemma_pairs_map_dom(kp, name);
            }
            let ghost before = events@;
            let found = find_known(&self.entries, &cur[k].0);
            let ghost nbefore = known_pairs(next@);
            match found {
                Some(j) => {
                    proof {
                        lemma_pairs_map_value(kp, j as int);
                    }
                    assert(kp[j as int].0 == name);
                    next.push(
                        KnownSession {
                            session_key: copy_string(&cur[k].0),
                            since_ms: self.entries[j].since_ms,
                        },
                    );
                },
                None => {
                    assert forall|i: int| 0 <= i < kp.len() implies #[trigger] kp[i].0 != name by {
                        assert(kp[i].0 == self.entries@[i].session_key@);
                    }
                    next.push(KnownSession { session_key: copy_string(&cur[k].0), since_ms: now_ms });
                    let (user, _ip) = key_parts(&cur[k].0);
                    let ev = SshEvent {
                        kind: SshEventKind::Login,
                        session_key: copy_string(&cur[k].0),
                        user,
                        client_ip: copy_string(&cur[k].1),
                        duration_secs: 0,
                    };
                    events.push(ev);
                    assert(events@ == before.push(ev));
                    assert forall|i: int| 0 <= i < before.len() implies before[i].session_key@
                        != name by {
                        let j2 = choose|j2: int|
                            0 <= j2 < k && cp[j2].0 == (#[trigger] before[i]).session_key@;
                        assert(events@[i] == before[i]);
                    }
                },
            }
            assert(known_pairs(next@) =~= nbefore.push(known_pairs(next@).last()));
            assert forall|i: int|
                0 <= i < events.len() implies exists|j: int|
                    0 <= j < k + 1 && cp[j].0 == (#[trigger] events@[i]).session_key@ by {
                if i < before.len() {
                    assert(events@[i] == before[i]);
                    let j2 = choose|j2: int|
                        0 <= j2 < k && cp[j2].0 == (#[trigger] before[i]).session_key@;
                    assert(cp[j2].0 == events@[i].session_key@);
                } else {
                    assert(cp[k as int].0 == events@[i].session_key@);
                }
            }
            assert forall|j: int|
                0 <= j < k + 1 && !kmap.dom().contains(#[trigger] cp[j].0) implies exists|i: int|
                    0 <= i < events.len() && (#[trigger] events@[i]).session_key@ == cp[j].0 by {
                if j < k {
                    let ii = choose|ii: int|
                        0 <= ii < before.len() && (#[trigger] before[ii]).session_key@ == cp[j].0;
                    assert(events@[ii] == before[ii]);
                } else {
                    assert(events@[before.len() as int].session_key@ == cp[j].0);
                }
            }
            k = k + 1;
        }
        assert forall|i: int| 0 <= i < events.len() implies cmap.dom().contains(
            (#[trigger] events@[i]).session_key@,
        ) by {
            let j = choose|j: int| 0 <= j < cur.len() && cp[j].0 == (#[trigger] events@[i]).session_key@;
            lemma_pairs_map_dom(cp, events@[i].session_key@);
        }
        let ghost n2 = events.len();
        let mut k2: usize = 0;
        while k2 < self.entries.len()
            invariant
                k2 <= self.entries.len(),
                n2 <= events.len(),
                kmap == pairs_map(kp),
                cmap == pairs_map(cp),
                kp == known_pairs(self.entries@),
                cp == string_pairs(cur@),
                keys_unique(kp),
                keys_unique(cp),
                forall|i: int|
                    0 <= i < events.len() ==> ssh_event_ok(#[trigger] events@[i], kmap, cmap, now_ms),
                forall|i: int|
                    0 <= i < n2 ==> cmap.dom().contains((#[trigger] events@[i]).session_key@),
                forall|i: int|
                    n2 <= i < events.len() ==> exists|j: int|
                        0 <= j < k2 && kp[j].0 == (#[trigger] events@[i]).session_key@,
                forall|i: int, i2: int|
                    0 <= i < i2 < events.len() ==> events@[i].session_key@ != events@[i2].session_key@,
                forall|j: int|
                    0 <= j < cp.len() && !kmap.dom().contains(#[trigger] cp[j].0) ==> exists|i: int|
                        0 <= i < events.len() && (#[trigger] events@[i]).session_key@ == cp[j].0,
                forall|j: int|
                    0 <= j < k2 && !cmap.dom().contains(#[trigger] kp[j].0) ==> exists|i: int|
                        0 <= i < events.len() && (#[trigger] events@[i]).session_key@ == kp[j].0,
            decreases self.entries.len() - k2,
        {
            let ghost name = kp[k2 as int].0;
            proof {
                lemma_pairs_map_value(kp, k2 as int);
                lemma_pairs_map_dom(cp, name);
            }
            let ghost before = events@;
            let found = find_pair(&cur, &self.entries[k2].session_key);
            if let Some(jj) = found {
                assert(cp[jj as int].0 == name);
            } else {
                assert forall|i: int| 0 <= i < cp.len() implies #[trigger] cp[i].0 != name by {
                    assert(cp[i].0 == cur@[i].0@);
                }
                let (user, ip) = key_parts(&self.entries[k2].session_key);
                let since = self.entries[k2].since_ms;
                let duration = if now_ms >= since {
                    (now_ms - since) / 1000
                } else {
                    0
                };
                let ev = SshEvent {
                    kind: SshEventKind::Logout,
                    session_key: copy_string(&self.entries[k2].session_key),
                    user,
                    client_ip: ip,
                    duration_secs: duration,
                };
                events.push(ev);
                assert(events@ == before.push(ev));
                assert forall|i: int| 0 <= i < before.len() implies before[i].session_key@
                    != name by {
                    assert(events@[i] == before[i]);
                    if i >= n2 {
                        let j2 = choose|j2: int|
                            0 <= j2 < k2 && kp[j2].0 == (#[trigger] before[i]).session_key@;
                    }
                }
            }
            assert forall|i: int| n2 <= i < events.len() implies exists|j: int|
                0 <= j < k2 + 1 && kp[j].0 == (#[trigger] events@[i]).session_key@ by {
                if i < before.len() {
                    assert(events@[i] == before[i]);
                    let j2 = choose|j2: int|
                        0 <= j2 < k2 && kp[j2].0 == (#[trigger] before[i]).session_key@;
                    assert(kp[j2].0 == events@[i].session_key@);
                } else {
                    assert(kp[k2 as int].0 == events@[i].session_key@);
                }
            }
            assert forall|j: int|
                0 <= j < cp.len() && !kmap.dom().contains(#[trigger] cp[j].0) implies exists|i: int|
                    0 <= i < events.len() && (#[trigger] events@[i]).session_key@ == cp[j].0 by {
                let ii = choose|ii: int|
                    0 <= ii < before.len() && (#[trigger] before[ii]).session_key@ == cp[j].0;
                assert(events@[ii] == before[ii]);
            }
            assert forall|j: int|
                0 <= j < k2 + 1 && !cmap.dom().contains(#[trigger] kp[j].0) implies exists|i: int|
                    0 <= i < events.len() && (#[trigger] events@[i]).session_key@ == kp[j].0 by {
                if j < k2 {
                    let ii = choose|ii: int|
                        0 <= ii < before.len() && (#[trigger] before[ii]).session_key@ == kp[j].0;
                    assert(events@[ii] == before[ii]);
                } else {
                    assert(events@[before.len() as int].session_key@ == kp[j].0);
                }
            }
            k2 = k2 + 1;
        }
        assert forall|key: Seq<char>| cmap.dom().contains(key) != kmap.dom().contains(key) implies exists|
            i: int,
        | 0 <= i < events.len() && (#[trigger] events@[i]).session_key@ == key by {
            lemma_pairs_map_dom(kp, key);
            lemma_pairs_map_dom(cp, key);
            if cmap.dom().contains(key) {
                let j = choose|j: int| 0 <= j < cp.len() && #[trigger] cp[j].0 == key;
            } else {
                let j = choose|j: int| 0 <= j < kp.len() && #[trigger] kp[j].0 == key;
            }
        }
        let ghost np = known_pairs(next@);
        assert(keys_unique(np));
        assert forall|key: Seq<char>| #![auto] pairs_map(np).dom().contains(key) == cmap.dom().contains(
            key,
        ) by {
            lemma_pairs_map_dom(np, key);
            lemma_pairs_map_dom(cp, key);
            if cmap.dom().contains(key) {
                let j = choose|j: int| 0 <= j < cp.len() && #[trigger] cp[j].0 == key;
                assert(np[j].0 == key);
            }
            if pairs_map(np).dom().contains(key) {
                let j = choose|j: int| 0 <= j < np.len() && #[trigger] np[j].0 == key;
                assert(cp[j].0 == key);
            }
        }
        assert forall|key: Seq<char>| #[trigger] cmap.dom().contains(key) implies pairs_map(np)[key]
            == next_known(kmap, cmap, now_ms)[key] by {
            lemma_pairs_map_dom(cp, key);
            let j = choose|j: int| 0 <= j < cp.len() && #[trigger] cp[j].0 == key;
            lemma_pairs_map_value(np, j);
        }
        assert(pairs_map(np) =~= next_known(kmap, cmap, now_ms));
        *self = SshTracker { entries: next };
        events
    }
}

/// After a poll, polling the same sessions again produces no event: no login
/// or logout fits the table the first poll left.
pub proof fn lemma_repeated_poll_is_quiet(
    known: Map<Seq<char>, u64>,
    current: Map<Seq<char>, Seq<char>>,
    first_ms: u64,
    second_ms: u64,
    e: SshEvent,
)
    ensures
        !ssh_event_ok(e, next_known(known, current, first_ms), current, second_ms),
{
}

/// A session that stays listed keeps the time it was first seen.
pub proof fn lemma_first_seen_kept(
    known: Map<Seq<char>, u64>,
    current: Map<Seq<char>, Seq<char>>,
    now_ms: u64,
    k: Seq<char>,
)
    requires
        known.dom().contains(k),
        current.dom().contains(k),
    ensures
        next_known(known, current, now_ms).dom().contains(k),
        next_known(known, current, now_ms)[k] == known[k],
{
}

/// The line of a session in the exported report.
pub open spec fn report_session_line(s: SshSession) -> Seq<char> {
    "- User: `"@ + s.user@ + "` from `"@ + s.client_ip@ + "` ("@ + s.tty_or_port@ + ")\n"@
}

/// The lines of the sessions in the exported report, in order.
pub open spec fn report_session_lines(s: Seq<SshSession>) -> Seq<char>
    decreases s.len(),
{
    if s.len() == 0 {
        Seq::empty()
    } else {
        report_session_lines(s.drop_last()) + report_session_line(s.last())
    }
}

/// The SSH section of the exported report: a heading, then a note that there
/// is no session, or one line per session and a blank line.
pub open spec fn ssh_report_section(s: Seq<SshSession>) -> Seq<char> {
    "## 👤 Active SSH Sessions\n"@ + if s.len() == 0 {
        "*No active remote SSH sessions.*\n\n"@
    } else {
        report_session_lines(s) + "\n"@
    }
}

/// Appends the SSH section of the exported report.
pub fn render_ssh_section(doc: &mut String, sessions: &Vec<SshSession>)
    ensures
        final(doc)@ == old(doc)@ + ssh_report_section(sessions@),
{
    push_str(doc, "## 👤 Active SSH Sessions\n");
    if sessions.len() == 0 {
        push_str(doc, "*No active remote SSH sessions.*\n\n");
        assert(doc@ =~= old(doc)@ + ssh_report_section(sessions@));
        return;
    }
    let ghost start = doc@;
    let mut i: usize = 0;
    assert(sessions@.take(0) =~= Seq::<SshSession>::empty());
    while i < sessions.len()
        invariant
            i <= sessions.len(),
            doc@ == start + report_session_lines(sessions@.take(i as int)),
        decreases sessions.len() - i,
    {
        assert(sessions@.take(i + 1).drop_last() =~= sessions@.take(i as int));
        let s = &sessions[i];
        push_str(doc, "- User: `");
        push_str(doc, s.user.as_str());
        push_str(doc, "` from `");
        push_str(doc, s.client_ip.as_str());
        push_str(doc, "` (");
        push_str(doc, s.tty_or_port.as_str());
        push_str(doc, ")\n");
        i = i + 1;
        assert(doc@ =~= start + report_session_lines(sessions@.take(i as int)));
    }
    assert(sessions@.take(sessions.len() as int) =~= sessions@);
    push_str(doc, "\n");
    assert(doc@ =~= old(doc)@ + ssh_report_section(sessions@));
}

} // verus!
