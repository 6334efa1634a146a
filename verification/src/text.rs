//! Character-level text handling shared by the parsers: whitespace, trimming,
//! tokenizing, splitting, ASCII case folding and decimal numbers.
//!
//! Every executable function here works on a `Vec<char>` holding the
//! characters of a string and is specified over `Seq<char>`.
use vstd::prelude::*;

verus! {

/// `String::push` appends one character to the end of the string.
pub assume_specification[ String::push ](s: &mut String, ch: char)
    ensures
        final(s)@ == old(s)@.push(ch),
;

/// The characters for which `char::is_whitespace` holds (the Unicode
/// `White_Space` property).
pub open spec fn is_ws(c: char) -> bool {
    let u = c as u32;
    ||| 9 <= u <= 13
    ||| u == 32
    ||| u == 0x85
    ||| u == 0xA0
    ||| u == 0x1680
    ||| 0x2000 <= u <= 0x200A
    ||| u == 0x2028
    ||| u == 0x2029
    ||| u == 0x202F
    ||| u == 0x205F
    ||| u == 0x3000
}

/// `s` without its leading whitespace.
pub open spec fn trim_start(s: Seq<char>) -> Seq<char>
    decreases s.len(),
{
    if s.len() > 0 && is_ws(s[0]) {
        trim_start(s.drop_first())
    } else {
        s
    }
}

/// `s` without its trailing whitespace.
pub open spec fn trim_end(s: Seq<char>) -> Seq<char>
    decreases s.len(),
{
    if s.len() > 0 && is_ws(s.last()) {
        trim_end(s.drop_last())
    } else {
        s
    }
}

/// `s` without leading and trailing whitespace, as `str::trim` gives it.
pub open spec fn trim(s: Seq<char>) -> Seq<char> {
    trim_end(trim_start(s))
}

/// The maximal runs of non-whitespace characters of `s`, in order, as
/// `str::split_whitespace` gives them. Read left to right: a whitespace
/// character ends the current run; a non-whitespace character extends the
/// run that its left neighbour belongs to, or starts a new one.
pub open spec fn tokens(s: Seq<char>) -> Seq<Seq<char>>
    decreases s.len(),
{
    if s.len() == 0 {
        seq![]
    } else {
        let prev = tokens(s.drop_last());
        let c = s.last();
        if is_ws(c) {
            prev
        } else if s.len() >= 2 && !is_ws(s[s.len() - 2]) {
            prev.update(prev.len() - 1, prev.last().push(c))
        } else {
            prev.push(seq![c])
        }
    }
}

/// The pieces of `s` between occurrences of `sep`, as `str::split` with a
/// character pattern gives them: one more piece than there are separators.
pub open spec fn split_on(s: Seq<char>, sep: char) -> Seq<Seq<char>>
    decreases s.len(),
{
    if s.len() == 0 {
        seq![seq![]]
    } else {
        let prev = split_on(s.drop_last(), sep);
        if s.last() == sep {
            prev.push(seq![])
        } else {
            prev.update(prev.len() - 1, prev.last().push(s.last()))
        }
    }
}

/// The lines of a command's or a file's output: the pieces between `'\n'`.
/// Every parser of this crate trims or tokenizes a line before it reads it,
/// so the `'\r'` of a `"\r\n"` ending and a final empty piece (both of which
/// `str::lines` drops) never change what a parser finds.
pub open spec fn split_lines(s: Seq<char>) -> Seq<Seq<char>> {
    split_on(s, '\n')
}

/// The character sequences held by a sequence of character vectors.
pub open spec fn views(v: Seq<Vec<char>>) -> Seq<Seq<char>> {
    v.map_values(|t: Vec<char>| t@)
}

/// ASCII lower case of one character; other characters are left as they are.
pub open spec fn lower(c: char) -> char {
    if 'A' <= c && c <= 'Z' {
        ((c as u32) + 32) as char
    } else {
        c
    }
}

/// ASCII lower case of a character sequence.
///
/// Where this crate compares a case-folded string with an ASCII keyword, this
/// gives the same answer as the full Unicode `to_lowercase`: the only non-ASCII
/// characters that `to_lowercase` turns into ASCII letters are U+212A (to `k`,
/// which no keyword holds) and U+0130 (to `i` followed by U+0307, which no
/// keyword holds either).
pub open spec fn lower_seq(s: Seq<char>) -> Seq<char> {
    s.map_values(|c: char| lower(c))
}

/// `s` begins with `p`, as `str::starts_with`.
pub open spec fn starts_with(s: Seq<char>, p: Seq<char>) -> bool {
    s.len() >= p.len() && s.take(p.len() as int) == p
}

/// `s` ends with `p`, as `str::ends_with`.
pub open spec fn ends_with(s: Seq<char>, p: Seq<char>) -> bool {
    s.len() >= p.len() && s.skip(s.len() - p.len()) == p
}

/// `s`, case-folded, holds the lower-case keyword `kw` somewhere.
pub open spec fn contains_ci(s: Seq<char>, kw: Seq<char>) -> bool {
    exists|i: int|
        0 <= i && i + kw.len() <= s.len() && #[trigger] lower_seq(s).subrange(i, i + kw.len())
            == kw
}

/// `s`, case-folded, begins with the lower-case keyword `kw`.
pub open spec fn starts_with_ci(s: Seq<char>, kw: Seq<char>) -> bool {
    s.len() >= kw.len() && lower_seq(s).take(kw.len() as int) == kw
}

pub open spec fn is_digit(c: char) -> bool {
    '0' <= c && c <= '9'
}

pub open spec fn digit_val(c: char) -> nat {
    ((c as u32) - 48) as nat
}

/// The number written by the decimal digits `s` (most significant first).
pub open spec fn digits_value(s: Seq<char>) -> nat
    decreases s.len(),
{
    if s.len() == 0 {
        0
    } else {
        digits_value(s.drop_last()) * 10 + digit_val(s.last())
    }
}

pub open spec fn all_digits(s: Seq<char>) -> bool {
    forall|i: int| 0 <= i < s.len() ==> is_digit(#[trigger] s[i])
}

/// The digits of an unsigned number: `s` without one leading `'+'`.
pub open spec fn unsigned_body(s: Seq<char>) -> Seq<char> {
    if s.len() > 0 && s[0] == '+' {
        s.drop_first()
    } else {
        s
    }
}

/// What `FromStr` for an unsigned integer type with largest value `max`
/// accepts: an optional `'+'`, then at least one ASCII digit and nothing else,
/// with a value of at most `max`.
pub open spec fn parse_unsigned(s: Seq<char>, max: nat) -> Option<nat> {
    let b = unsigned_body(s);
    if b.len() > 0 && all_digits(b) && digits_value(b) <= max {
        Some(digits_value(b))
    } else {
        None
    }
}

/// `s.parse::<u64>().ok()`.
pub open spec fn parse_u64_spec(s: Seq<char>) -> Option<u64> {
    match parse_unsigned(s, u64::MAX as nat) {
        Some(n) => Some(n as u64),
        None => None,
    }
}

/// `s.parse::<u32>().ok()`.
pub open spec fn parse_u32_spec(s: Seq<char>) -> Option<u32> {
    match parse_unsigned(s, u32::MAX as nat) {
        Some(n) => Some(n as u32),
        None => None,
    }
}

/// `s.parse::<u8>().ok()`.
pub open spec fn parse_u8_spec(s: Seq<char>) -> Option<u8> {
    match parse_unsigned(s, u8::MAX as nat) {
        Some(n) => Some(n as u8),
        None => None,
    }
}

/// The decimal digits of `n`, most significant first, without leading zeros
/// (`"0"` for zero), as `Display` for integers writes them.
pub open spec fn decimal(n: nat) -> Seq<char>
    decreases n,
{
    if n < 10 {
        seq![((n + 48) as u32) as char]
    } else {
        decimal(n / 10).push((((n % 10) + 48) as u32) as char)
    }
}

/// `u64::saturating_mul`.
pub open spec fn sat_mul(a: u64, b: u64) -> u64 {
    if a * b > u64::MAX {
        u64::MAX
    } else {
        (a * b) as u64
    }
}

/// `u64::saturating_sub`.
pub open spec fn sat_sub(a: u64, b: u64) -> u64 {
    if a >= b {
        (a - b) as u64
    } else {
        0
    }
}

/// The characters of `s`.
pub fn chars_of(s: &str) -> (v: Vec<char>)
    ensures
        v@ == s@,
{
    let mut v: Vec<char> = Vec::new();
    for c in it: s.chars()
        invariant
            v@ == it.seq().take(it.index() as int),
    {
        v.push(c);
    }
    v
}

/// A `String` holding the characters `v[lo..hi]`.
pub fn string_of_range(v: &Vec<char>, lo: usize, hi: usize) -> (s: String)
    requires
        lo <= hi <= v.len(),
    ensures
        s@ == v@.subrange(lo as int, hi as int),
{
    let mut s = String::new();
    let mut i = lo;
    while i < hi
        invariant
            lo <= i <= hi <= v.len(),
            s@ == v@.subrange(lo as int, i as int),
        decreases hi - i,
    {
        s.push(v[i]);
        assert(v@.subrange(lo as int, i + 1) =~= v@.subrange(lo as int, i as int).push(v@[i as int]));
        i = i + 1;
    }
    s
}

/// A `String` holding the characters of `v`.
pub fn string_of(v: &Vec<char>) -> (s: String)
    ensures
        s@ == v@,
{
    let s = string_of_range(v, 0, v.len());
    assert(v@.subrange(0, v@.len() as int) =~= v@);
    s
}

/// Appends the characters of `v` to `s`.
pub fn push_chars(s: &mut String, v: &Vec<char>)
    ensures
        final(s)@ == old(s)@ + v@,
{
    let mut i: usize = 0;
    while i < v.len()
        invariant
            i <= v.len(),
            s@ == old(s)@ + v@.take(i as int),
        decreases v.len() - i,
    {
        s.push(v[i]);
        assert(v@.take(i + 1) =~= v@.take(i as int).push(v@[i as int]));
        i = i + 1;
    }
    assert(v@.take(v.len() as int) =~= v@);
}

/// Appends the characters of `t` to `s`.
pub fn push_str(s: &mut String, t: &str)
    ensures
        final(s)@ == old(s)@ + t@,
{
    let v = chars_of(t);
    push_chars(s, &v);
}

/// `char::is_whitespace`.
pub fn is_ws_char(c: char) -> (b: bool)
    ensures
        b == is_ws(c),
{
    let u = c as u32;
    (9 <= u && u <= 13) || u == 32 || u == 0x85 || u == 0xA0 || u == 0x1680 || (0x2000 <= u
        && u <= 0x200A) || u == 0x2028 || u == 0x2029 || u == 0x202F || u == 0x205F || u == 0x3000
}

/// ASCII lower case of one character.
pub fn lower_char(c: char) -> (r: char)
    ensures
        r == lower(c),
{
    if 'A' <= c && c <= 'Z' {
        let u = (c as u32) + 32;
        assert(97 <= u <= 122);
        char_of_ascii(u as u8)
    } else {
        c
    }
}

/// The ASCII character with code `b`.
pub fn char_of_ascii(b: u8) -> (c: char)
    requires
        b < 128,
    ensures
        c == (b as u32) as char,
        c as u32 == b as u32,
{
    b as char
}

/// The bounds of `trim(v@)` inside `v`.
pub fn trim_range(v: &Vec<char>) -> (r: (usize, usize))
    ensures
        r.0 <= r.1 <= v.len(),
        trim(v@) == v@.subrange(r.0 as int, r.1 as int),
{
    let n = v.len();
    let mut lo: usize = 0;
    assert(v@.subrange(0, n as int) =~= v@);
    while lo < n && is_ws_char(v[lo])
        invariant
            lo <= n == v.len(),
            trim_start(v@) == trim_start(v@.subrange(lo as int, n as int)),
        decreases n - lo,
    {
        assert(v@.subrange(lo as int, n as int).drop_first() =~= v@.subrange(lo + 1, n as int));
        lo = lo + 1;
    }
    let mut hi: usize = n;
    while hi > lo && is_ws_char(v[hi - 1])
        invariant
            lo <= hi <= n == v.len(),
            trim_start(v@) == v@.subrange(lo as int, n as int),
            trim(v@) == trim_end(v@.subrange(lo as int, hi as int)),
        decreases hi - lo,
    {
        assert(v@.subrange(lo as int, hi as int).drop_last() =~= v@.subrange(lo as int, hi - 1));
        hi = hi - 1;
    }
    (lo, hi)
}

/// `trim(v@)` as a vector.
pub fn trim_chars(v: &Vec<char>) -> (t: Vec<char>)
    ensures
        t@ == trim(v@),
{
    let (lo, hi) = trim_range(v);
    let mut t: Vec<char> = Vec::new();
    let mut i = lo;
    while i < hi
        invariant
            lo <= i <= hi <= v.len(),
            t@ == v@.subrange(lo as int, i as int),
        decreases hi - i,
    {
        t.push(v[i]);
        assert(v@.subrange(lo as int, i + 1) =~= v@.subrange(lo as int, i as int).push(v@[i as int]));
        i = i + 1;
    }
    t
}

/// The whitespace-separated tokens of `v`.
pub fn split_ws(v: &Vec<char>) -> (r: Vec<Vec<char>>)
    ensures
        views(r@) == tokens(v@),
{
    let mut out: Vec<Vec<char>> = Vec::new();
    let mut cur: Vec<char> = Vec::new();
    let mut i: usize = 0;
    assert(v@.take(0) =~= Seq::<char>::empty());
    assert(views(out@) =~= Seq::<Seq<char>>::empty());
    while i < v.len()
        invariant
            i <= v.len(),
            tokens(v@.take(i as int)) == views(out@) + (if cur.len() > 0 {
                seq![cur@]
            } else {
                Seq::<Seq<char>>::empty()
            }),
            cur.len() > 0 <==> (i > 0 && !is_ws(v@[i - 1])),
        decreases v.len() - i,
    {
        let c = v[i];
        let ghost prefix = v@.take(i + 1);
        assert(prefix.drop_last() =~= v@.take(i as int));
        assert(prefix.last() == c);
        if is_ws_char(c) {
            if cur.len() > 0 {
                let ghost old_out = out@;
                let ghost cv = cur@;
                let done = cur;
                out.push(done);
                cur = Vec::new();
                assert(views(out@) =~= views(old_out) + seq![cv]);
            }
            assert(views(out@) + Seq::<Seq<char>>::empty() =~= views(out@));
        } else {
            let ghost before = views(out@);
            if cur.len() > 0 {
                assert(prefix[prefix.len() - 2] == v@[i - 1]);
                let ghost cv = cur@;
                cur.push(c);
                assert((before + seq![cv]).update((before + seq![cv]).len() - 1, cv.push(c))
                    =~= before + seq![cur@]);
            } else {
                cur.push(c);
                assert(cur@ =~= seq![c]);
                assert(before + Seq::<Seq<char>>::empty() =~= before);
            }
        }
        i = i + 1;
    }
    assert(v@.take(v.len() as int) =~= v@);
    if cur.len() > 0 {
        let ghost old_out = out@;
        let ghost cv = cur@;
        out.push(cur);
        assert(views(out@) =~= views(old_out) + seq![cv]);
    } else {
        assert(views(out@) + Seq::<Seq<char>>::empty() =~= views(out@));
    }
    out
}

/// The pieces of `v` between occurrences of `sep`.
pub fn split_char(v: &Vec<char>, sep: char) -> (r: Vec<Vec<char>>)
    ensures
        views(r@) == split_on(v@, sep),
{
    let mut out: Vec<Vec<char>> = Vec::new();
    let mut cur: Vec<char> = Vec::new();
    let mut i: usize = 0;
    assert(v@.take(0) =~= Seq::<char>::empty());
    assert(views(out@).push(cur@) =~= seq![Seq::<char>::empty()]);
    while i < v.len()
        invariant
            i <= v.len(),
            split_on(v@.take(i as int), sep) == views(out@).push(cur@),
        decreases v.len() - i,
    {
        let c = v[i];
        let ghost prefix = v@.take(i + 1);
        assert(prefix.drop_last() =~= v@.take(i as int));
        let ghost before = views(out@);
        let ghost cv = cur@;
        if c == sep {
            let done = cur;
            out.push(done);
            cur = Vec::new();
            assert(views(out@) =~= before.push(cv));
            assert(views(out@).push(cur@) =~= before.push(cv).push(Seq::<char>::empty()));
        } else {
            cur.push(c);
            assert(before.push(cv).update(before.len() as int, cv.push(c)) =~= before.push(cur@));
        }
        i = i + 1;
    }
    assert(v@.take(v.len() as int) =~= v@);
    let ghost before = views(out@);
    out.push(cur);
    assert(views(out@) =~= before.push(out@.last()@));
    out
}

/// The pieces of `v` between `'\n'` characters.
pub fn split_lines_of(v: &Vec<char>) -> (r: Vec<Vec<char>>)
    ensures
        views(r@) == split_lines(v@),
{
    split_char(v, '\n')
}

/// Whether `v`, case-folded, equals the lower-case keyword `kw`.
pub fn eq_ignore_ascii_case(v: &Vec<char>, kw: &Vec<char>) -> (b: bool)
    ensures
        b == (lower_seq(v@) == kw@),
{
    if v.len() != kw.len() {
        assert(lower_seq(v@).len() != kw@.len());
        return false;
    }
    let mut i: usize = 0;
    while i < v.len()
        invariant
            i <= v.len() == kw.len(),
            forall|j: int| 0 <= j < i ==> lower(v@[j]) == kw@[j],
        decreases v.len() - i,
    {
        if lower_char(v[i]) != kw[i] {
            assert(lower_seq(v@)[i as int] != kw@[i as int]);
            return false;
        }
        i = i + 1;
    }
    assert(lower_seq(v@) =~= kw@);
    true
}

/// Whether `v`, case-folded, begins with the lower-case keyword `kw`.
pub fn starts_with_ignore_ascii_case(v: &Vec<char>, kw: &Vec<char>) -> (b: bool)
    ensures
        b == starts_with_ci(v@, kw@),
{
    if v.len() < kw.len() {
        return false;
    }
    let mut i: usize = 0;
    while i < kw.len()
        invariant
            i <= kw.len() <= v.len(),
            forall|j: int| 0 <= j < i ==> lower(v@[j]) == kw@[j],
        decreases kw.len() - i,
    {
        if lower_char(v[i]) != kw[i] {
            assert(lower_seq(v@).take(kw.len() as int)[i as int] != kw@[i as int]);
            return false;
        }
        i = i + 1;
    }
    assert(lower_seq(v@).take(kw.len() as int) =~= kw@);
    true
}

/// Whether `v` begins with `p`.
pub fn starts_with_chars(v: &Vec<char>, p: &Vec<char>) -> (b: bool)
    ensures
        b == starts_with(v@, p@),
{
    if v.len() < p.len() {
        return false;
    }
    let mut i: usize = 0;
    while i < p.len()
        invariant
            i <= p.len() <= v.len(),
            forall|j: int| 0 <= j < i ==> v@[j] == p@[j],
        decreases p.len() - i,
    {
        if v[i] != p[i] {
            assert(v@.take(p.len() as int)[i as int] != p@[i as int]);
            return false;
        }
        i = i + 1;
    }
    assert(v@.take(p.len() as int) =~= p@);
    true
}

/// Whether `v` ends with `p`.
pub fn ends_with_chars(v: &Vec<char>, p: &Vec<char>) -> (b: bool)
    ensures
        b == ends_with(v@, p@),
{
    if v.len() < p.len() {
        return false;
    }
    let off = v.len() - p.len();
    let mut i: usize = 0;
    while i < p.len()
        invariant
            i <= p.len() <= v.len(),
            off == v.len() - p.len(),
            forall|j: int| 0 <= j < i ==> v@[off + j] == p@[j],
        decreases p.len() - i,
    {
        if v[off + i] != p[i] {
            assert(v@.skip(off as int)[i as int] != p@[i as int]);
            return false;
        }
        i = i + 1;
    }
    assert(v@.skip(off as int) =~= p@);
    true
}

/// Whether `v`, case-folded, holds the lower-case keyword `kw` somewhere.
pub fn contains_ignore_ascii_case(v: &Vec<char>, kw: &Vec<char>) -> (b: bool)
    ensures
        b == contains_ci(v@, kw@),
{
    if v.len() < kw.len() {
        return false;
    }
    let last = v.len() - kw.len();
    let mut i: usize = 0;
    while i <= last
        invariant
            last == v.len() - kw.len(),
            i <= last + 1,
            forall|j: int|
                0 <= j < i ==> #[trigger] lower_seq(v@).subrange(j, j + kw.len()) != kw@,
        decreases last + 1 - i,
    {
        let mut k: usize = 0;
        let mut same = true;
        while k < kw.len()
            invariant
                i <= last,
                last == v.len() - kw.len(),
                k <= kw.len(),
                same == (forall|j: int| 0 <= j < k ==> lower(v@[i + j]) == kw@[j]),
            decreases kw.len() - k,
        {
            if lower_char(v[i + k]) != kw[k] {
                same = false;
            }
            k = k + 1;
        }
        if same {
            assert(lower_seq(v@).subrange(i as int, i + kw.len()) =~= kw@);
            return true;
        } else {
            proof {
                let j = choose|j: int| 0 <= j < kw.len() && lower(v@[i + j]) != kw@[j];
                assert(lower_seq(v@).subrange(i as int, i + kw.len())[j] != kw@[j]);
            }
        }
        i = i + 1;
    }
    false
}

/// `needle` occurs in `haystack` as a run of consecutive characters.
pub open spec fn contains_seq(haystack: Seq<char>, needle: Seq<char>) -> bool {
    exists|i: int|
        0 <= i && i + needle.len() <= haystack.len() && #[trigger] haystack.subrange(
            i,
            i + needle.len(),
        ) == needle
}

/// Whether `needle` occurs in `haystack`, as `str::contains` answers for a
/// text pattern.
pub fn contains_chars(haystack: &Vec<char>, needle: &Vec<char>) -> (b: bool)
    ensures
        b == contains_seq(haystack@, needle@),
{
    if haystack.len() < needle.len() {
        return false;
    }
    let last = haystack.len() - needle.len();
    let mut i: usize = 0;
    while i <= last
        invariant
            last == haystack.len() - needle.len(),
            i <= last + 1,
            forall|j: int|
                0 <= j < i ==> #[trigger] haystack@.subrange(j, j + needle.len()) != needle@,
        decreases last + 1 - i,
    {
        let mut k: usize = 0;
        let mut same = true;
        while k < needle.len()
            invariant
                i <= last,
                last == haystack.len() - needle.len(),
                k <= needle.len(),
                same == (forall|j: int| 0 <= j < k ==> haystack@[i + j] == needle@[j]),
            decreases needle.len() - k,
        {
            if haystack[i + k] != needle[k] {
                same = false;
            }
            k = k + 1;
        }
        if same {
            assert(haystack@.subrange(i as int, i + needle.len()) =~= needle@);
            return true;
        } else {
            proof {
                let j = choose|j: int| 0 <= j < needle.len() && haystack@[i + j] != needle@[j];
                assert(haystack@.subrange(i as int, i + needle.len())[j] != needle@[j]);
            }
        }
        i = i + 1;
    }
    false
}

/// What `str::to_lowercase` gives for a text: each character replaced by its
/// lower-case mapping under Unicode's rules (one character or several).
pub uninterp spec fn unicode_lowercase(s: Seq<char>) -> Seq<char>;

/// `str::to_lowercase`. Its result is named by `unicode_lowercase` and
/// depends on the text alone; the Unicode case tables it follows are not
/// restated.
#[verifier::external_body]
pub(crate) fn to_lowercase(s: &str) -> (r: String)
    ensures
        r@ == unicode_lowercase(s@),
{
    s.to_lowercase()
}

/// A text with leading whitespace removed starts with a non-whitespace
/// character, if any is left.
pub proof fn lemma_trim_start_first(s: Seq<char>)
    ensures
        trim_start(s).len() > 0 ==> !is_ws(trim_start(s)[0]),
    decreases s.len(),
{
    if s.len() > 0 && is_ws(s[0]) {
        lemma_trim_start_first(s.drop_first());
    }
}

/// Removing trailing whitespace keeps a prefix, which ends in a
/// non-whitespace character if it is not empty.
pub proof fn lemma_trim_end_prefix(s: Seq<char>)
    ensures
        trim_end(s).len() <= s.len(),
        trim_end(s) == s.take(trim_end(s).len() as int),
        trim_end(s).len() > 0 ==> !is_ws(trim_end(s).last()),
    decreases s.len(),
{
    if s.len() > 0 && is_ws(s.last()) {
        lemma_trim_end_prefix(s.drop_last());
        let t = trim_end(s.drop_last());
        assert(s.drop_last().take(t.len() as int) =~= s.take(t.len() as int));
    } else {
        assert(s.take(s.len() as int) =~= s);
    }
}

/// Trimming a trimmed text changes nothing.
pub proof fn lemma_trim_idempotent(s: Seq<char>)
    ensures
        trim(trim(s)) == trim(s),
{
    let a = trim_start(s);
    let t = trim_end(a);
    lemma_trim_start_first(s);
    lemma_trim_end_prefix(a);
    if t.len() > 0 {
        assert(t[0] == a[0]);
        assert(trim_start(t) == t);
        lemma_trim_end_prefix(t);
        assert(trim_end(t) == t);
    } else {
        assert(trim_start(t) == t);
        assert(trim_end(t) == t);
    }
}

/// A longer run of digits never writes a smaller number than its prefix.
pub proof fn lemma_digits_prefix_le(s: Seq<char>, k: int)
    requires
        0 <= k <= s.len(),
    ensures
        digits_value(s.take(k)) <= digits_value(s),
    decreases s.len(),
{
    if k < s.len() {
        lemma_digits_prefix_le(s.drop_last(), k);
        assert(s.drop_last().take(k) =~= s.take(k));
    } else {
        assert(s.take(k) =~= s);
    }
}

/// `v.parse::<u64>().ok()`.
pub fn parse_u64_chars(v: &Vec<char>) -> (r: Option<u64>)
    ensures
        r == parse_u64_spec(v@),
{
    let n = v.len();
    let start: usize = if n > 0 && v[0] == '+' {
        1
    } else {
        0
    };
    let ghost body = unsigned_body(v@);
    assert(body =~= v@.subrange(start as int, n as int));
    if start == n {
        return None;
    }
    let mut acc: u64 = 0;
    let mut i = start;
    assert(v@.subrange(start as int, start as int) =~= Seq::<char>::empty());
    while i < n
        invariant
            start <= i <= n == v.len(),
            start < n,
            body == v@.subrange(start as int, n as int),
            body == unsigned_body(v@),
            acc as nat == digits_value(v@.subrange(start as int, i as int)),
            forall|j: int| start <= j < i ==> is_digit(#[trigger] v@[j]),
        decreases n - i,
    {
        let c = v[i];
        let ghost pre = v@.subrange(start as int, i + 1);
        assert(pre.drop_last() =~= v@.subrange(start as int, i as int));
        if !('0' <= c && c <= '9') {
            assert(body[(i - start) as int] == c);
            assert(!is_digit(body[(i - start) as int]));
            assert(!all_digits(body));
            return None;
        }
        let d = (c as u32 - 48) as u64;
        if acc > (u64::MAX - d) / 10 {
            assert(digit_val(c) == d as nat);
            assert(acc * 10 + d > u64::MAX) by (nonlinear_arith)
                requires
                    acc > (u64::MAX - d) / 10,
                    d <= 9,
            ;
            assert(digits_value(pre) == digits_value(pre.drop_last()) * 10 + digit_val(pre.last()));
            assert(digits_value(pre) > u64::MAX);
            proof {
                if all_digits(body) {
                    assert(body.take(i + 1 - start) =~= pre);
                    lemma_digits_prefix_le(body, i + 1 - start);
                }
            }
            return None;
        }
        acc = acc * 10 + d;
        i = i + 1;
    }
    assert(v@.subrange(start as int, n as int) =~= body);
    assert(all_digits(body)) by {
        assert forall|j: int| 0 <= j < body.len() implies is_digit(#[trigger] body[j]) by {
            assert(body[j] == v@[j + start]);
        }
    }
    Some(acc)
}

/// `v.parse::<u32>().ok()`.
pub fn parse_u32_chars(v: &Vec<char>) -> (r: Option<u32>)
    ensures
        r == parse_u32_spec(v@),
{
    match parse_u64_chars(v) {
        Some(x) => {
            if x <= u32::MAX as u64 {
                Some(x as u32)
            } else {
                None
            }
        },
        None => None,
    }
}

/// `v.parse::<u8>().ok()`.
pub fn parse_u8_chars(v: &Vec<char>) -> (r: Option<u8>)
    ensures
        r == parse_u8_spec(v@),
{
    match parse_u64_chars(v) {
        Some(x) => {
            if x <= u8::MAX as u64 {
                Some(x as u8)
            } else {
                None
            }
        },
        None => None,
    }
}

/// `a.saturating_mul(b)` for `u64`.
pub fn saturating_mul_u64(a: u64, b: u64) -> (r: u64)
    ensures
        r == sat_mul(a, b),
{
    match a.checked_mul(b) {
        Some(x) => x,
        None => u64::MAX,
    }
}

/// Appends the decimal digits of `n` to `s`.
pub fn push_decimal(s: &mut String, n: u64)
    ensures
        final(s)@ == old(s)@ + decimal(n as nat),
    decreases n,
{
    if n < 10 {
        let c = char_of_ascii((n + 48) as u8);
        s.push(c);
        assert(decimal(n as nat) =~= seq![c]);
    } else {
        push_decimal(s, n / 10);
        let c = char_of_ascii((n % 10 + 48) as u8);
        s.push(c);
    }
}

} // verus!
