//! Syslog parser (RFC 3164 and RFC 5424).
//!
//! RFC 3164: `<priority>timestamp hostname app[pid]: message`;
//! RFC 5424: `<version>priority timestamp hostname app-name procid msgid structured-data message`.
use vstd::prelude::*;
use crate::models::{EntryV, FieldMap, LevelV, LogEntry, LogLevel, Timestamp};
use crate::text::{
    chars_of, digit, find_lit, find_spec, is_digit, is_ws, occurs_at, slice, string_of,
    whitespace,
};
use crate::time::{
    local_year, parse_month_day_time, parse_rfc3339, spec_parse_month_day_time,
    spec_parse_rfc3339, spec_utc_from_parts, ts_of, utc_from_parts,
};

verus! {

// ---------------------------------------------------------------------------
// Bytes of UTF-8 text
// ---------------------------------------------------------------------------

/// Bytes in the UTF-8 encoding of a character (`char::len_utf8`).
pub open spec fn utf8_len(c: char) -> int {
    if (c as u32) < 0x80 {
        1
    } else if (c as u32) < 0x800 {
        2
    } else if (c as u32) < 0x10000 {
        3
    } else {
        4
    }
}

/// Bytes in the UTF-8 encoding of a text (`str::len`).
pub open spec fn bytes_len(s: Seq<char>) -> int
    decreases s.len(),
{
    if s.len() == 0 {
        0
    } else {
        bytes_len(s.drop_last()) + utf8_len(s.last())
    }
}

/// The number of characters that take exactly `b` bytes, if byte `b` is a character
/// boundary of `s`.
pub open spec fn char_at_byte(s: Seq<char>, b: int) -> Option<int> {
    if exists|k: int| 0 <= k <= s.len() && bytes_len(s.take(k)) == b {
        Some(choose|k: int| 0 <= k <= s.len() && bytes_len(s.take(k)) == b)
    } else {
        None
    }
}

proof fn lemma_bytes_len_take_grows(s: Seq<char>, k: int, m: int)
    requires
        0 <= k < m <= s.len(),
    ensures
        bytes_len(s.take(k)) < bytes_len(s.take(m)),
    decreases m - k,
{
    assert(s.take(m).drop_last() =~= s.take(m - 1));
    if k < m - 1 {
        lemma_bytes_len_take_grows(s, k, m - 1);
    }
}

fn char_len(c: char) -> (r: usize)
    ensures
        r as int == utf8_len(c),
{
    let u = c as u32;
    if u < 0x80 {
        1
    } else if u < 0x800 {
        2
    } else if u < 0x10000 {
        3
    } else {
        4
    }
}

/// Where byte `b` falls in `s`, in characters (see [`char_at_byte`]).
fn byte_boundary(s: &Vec<char>, b: usize) -> (r: Option<usize>)
    requires
        b <= 16,
    ensures
        match r {
            Some(k) => char_at_byte(s@, b as int) == Some(k as int) && k <= s.len(),
            None => char_at_byte(s@, b as int) == None::<int>,
        },
{
    let mut k: usize = 0;
    let mut acc: usize = 0;
    assert(s@.take(0) =~= Seq::<char>::empty());
    while k < s.len() && acc < b
        invariant
            k <= s.len(),
            acc as int == bytes_len(s@.take(k as int)),
            acc <= b + 4,
            b <= 16,
            k > 0 ==> bytes_len(s@.take(k - 1)) < b,
        decreases s.len() - k,
    {
        assert(s@.take(k + 1).drop_last() =~= s@.take(k as int));
        acc = acc + char_len(s[k]);
        k = k + 1;
    }
    if acc == b {
        proof {
            assert forall|m: int| 0 <= m <= s.len() && bytes_len(s@.take(m)) == b implies m
                == k by {
                if m < k {
                    lemma_bytes_len_take_grows(s@, m, k as int);
                } else if m > k {
                    lemma_bytes_len_take_grows(s@, k as int, m);
                }
            }
        }
        Some(k)
    } else {
        proof {
            assert forall|m: int| 0 <= m <= s.len() implies bytes_len(s@.take(m)) != b by {
                if m < k {
                    if m < k - 1 {
                        lemma_bytes_len_take_grows(s@, m, k - 1);
                    }
                } else if m > k {
                    lemma_bytes_len_take_grows(s@, k as int, m);
                }
            }
        }
        None
    }
}

// ---------------------------------------------------------------------------
// Priority
// ---------------------------------------------------------------------------

/// The value of a run of decimal digits.
pub open spec fn digits_value(d: Seq<char>) -> nat
    decreases d.len(),
{
    if d.len() == 0 {
        0
    } else {
        digits_value(d.drop_last()) * 10 + (d.last() as nat - '0' as nat) as nat
    }
}

/// Every character is a decimal digit.
pub open spec fn all_digits(d: Seq<char>) -> bool {
    forall|i: int| 0 <= i < d.len() ==> is_digit(d[i])
}

/// `str::parse` into an unsigned integer type whose largest value is `max`: an
/// optional `+`, then at least one decimal digit, at most `max`.
pub open spec fn spec_parse_unsigned(s: Seq<char>, max: nat) -> Option<nat> {
    let d = if s.len() > 0 && s[0] == '+' { s.drop_first() } else { s };
    if d.len() > 0 && all_digits(d) && digits_value(d) <= max {
        Some(digits_value(d))
    } else {
        None
    }
}

proof fn lemma_digits_value_grows(d: Seq<char>, k: int)
    requires
        0 <= k <= d.len(),
        forall|i: int| 0 <= i < d.len() ==> is_digit(d[i]),
    ensures
        digits_value(d.take(k)) <= digits_value(d),
    decreases d.len() - k,
{
    if k < d.len() {
        lemma_digits_value_grows(d.drop_last(), if k < d.len() - 1 { k } else { d.len() - 1 });
        assert(d.drop_last().take(k) =~= d.take(k));
        if k == d.len() - 1 {
            assert(d.drop_last().take(k) =~= d.drop_last());
        }
    } else {
        assert(d.take(k) =~= d);
    }
}

pub(crate) fn parse_unsigned(s: &Vec<char>, max: u32) -> (r: Option<u32>)
    requires
        max <= 65535,
    ensures
        match r {
            Some(v) => spec_parse_unsigned(s@, max as nat) == Some(v as nat),
            None => spec_parse_unsigned(s@, max as nat) == None::<nat>,
        },
{
    let start: usize = if s.len() > 0 && s[0] == '+' { 1 } else { 0 };
    let ghost d = if s@.len() > 0 && s@[0] == '+' { s@.drop_first() } else { s@ };
    assert(d =~= s@.subrange(start as int, s.len() as int));
    if start >= s.len() {
        return None;
    }
    let mut acc: u32 = 0;
    let mut i = start;
    while i < s.len()
        invariant
            start <= i <= s.len(),
            d == s@.subrange(start as int, s.len() as int),
            d == (if s@.len() > 0 && s@[0] == '+' { s@.drop_first() } else { s@ }),
            forall|j: int| 0 <= j < i - start ==> is_digit(d[j]),
            acc as nat == digits_value(d.take(i - start)),
            acc <= max,
            max <= 65535,
        decreases s.len() - i,
    {
        let c = s[i];
        if !digit(c) {
            assert(!is_digit(d[i - start]));
            return None;
        }
        proof {
            assert(d.take(i - start + 1).drop_last() =~= d.take(i - start));
            assert(d.take(i - start + 1).last() == c);
        }
        acc = acc * 10 + (c as u32 - '0' as u32);
        if acc > max {
            proof {
                if all_digits(d) {
                    lemma_digits_value_grows(d, i - start + 1);
                }
            }
            return None;
        }
        i = i + 1;
    }
    assert(d.take(i - start) =~= d);
    Some(acc)
}

/// The level a syslog severity (priority modulo 8) stands for.
pub open spec fn severity_level(sev: nat) -> LevelV {
    if sev <= 2 {
        LevelV::Fatal
    } else if sev == 3 {
        LevelV::Error
    } else if sev == 4 {
        LevelV::Warn
    } else if sev == 5 {
        LevelV::Info
    } else if sev == 6 {
        LevelV::Debug
    } else {
        LevelV::Trace
    }
}

fn level_of_severity(sev: u8) -> (r: LogLevel)
    requires
        sev < 8,
    ensures
        r@ == severity_level(sev as nat),
{
    if sev <= 2 {
        LogLevel::Fatal
    } else if sev == 3 {
        LogLevel::Error
    } else if sev == 4 {
        LogLevel::Warn
    } else if sev == 5 {
        LogLevel::Info
    } else if sev == 6 {
        LogLevel::Debug
    } else {
        LogLevel::Trace
    }
}

// ---------------------------------------------------------------------------
// RFC 5424
// ---------------------------------------------------------------------------

/// Splitting at `c` into at most `n` pieces (`str::splitn`), scanned up to `k`.
pub open spec fn splitn_scan(s: Seq<char>, c: char, n: nat, k: nat) -> (Seq<Seq<char>>, Seq<char>)
    decreases k,
{
    if k == 0 || k > s.len() {
        (Seq::empty(), Seq::empty())
    } else {
        let st = splitn_scan(s, c, n, (k - 1) as nat);
        if s[k - 1] == c && st.0.len() + 1 < n {
            (st.0.push(st.1), Seq::empty())
        } else {
            (st.0, st.1.push(s[k - 1]))
        }
    }
}

pub open spec fn spec_splitn(s: Seq<char>, c: char, n: nat) -> Seq<Seq<char>> {
    let st = splitn_scan(s, c, n, s.len());
    st.0.push(st.1)
}

/// The timestamp, source and message of an RFC 5424 line.
pub struct SysFields {
    pub timestamp: Option<Timestamp>,
    pub source: Option<Seq<char>>,
    pub message: Seq<char>,
}

/// The nil value of an RFC 5424 header field.
pub open spec fn is_nil(p: Seq<char>) -> bool {
    p == seq!['-']
}

proof fn lemma_nil(p: Seq<char>)
    ensures
        is_nil(p) <==> (p.len() == 1 && p[0] == '-'),
{
    if p.len() == 1 && p[0] == '-' {
        assert(p =~= seq!['-']);
    }
}

/// The first space at or after `p` that ends the structured data: with `bracket`, a
/// space right after a `]`, else any space; the text's length when there is none.
pub open spec fn sd_stop_from(r: Seq<char>, p: int, bracket: bool) -> int
    decreases r.len() - p,
{
    if p < 0 || p >= r.len() {
        r.len() as int
    } else if r[p] == ' ' && (!bracket || (p > 0 && r[p - 1] == ']')) {
        p
    } else {
        sd_stop_from(r, p + 1, bracket)
    }
}

/// The MSG part of the text that starts with the structured data: what follows the
/// space that ends it (bracketed elements `[...]`, or the nil value `-`); empty when
/// nothing follows.
pub open spec fn sd_message(r: Seq<char>) -> Seq<char> {
    let stop = sd_stop_from(r, 0, r.len() > 0 && r[0] == '[');
    if stop < r.len() {
        r.skip(stop + 1)
    } else {
        Seq::empty()
    }
}

/// RFC 5424 reading of the text after the priority,
/// `VERSION TIMESTAMP HOSTNAME APP-NAME PROCID MSGID STRUCTURED-DATA [MSG]`: `None`
/// with fewer than three space-separated pieces; the timestamp is the RFC 3339
/// TIMESTAMP, the source the APP-NAME and the message the MSG (nil fields giving
/// nothing).
pub open spec fn spec_rfc5424(rest: Seq<char>) -> Option<SysFields> {
    let parts = spec_splitn(rest, ' ', 7);
    if parts.len() < 3 {
        None
    } else {
        Some(
            SysFields {
                timestamp: if is_nil(parts[1]) {
                    None
                } else {
                    ts_of(spec_parse_rfc3339(parts[1]))
                },
                source: if parts.len() > 3 && !is_nil(parts[3]) {
                    Some(parts[3])
                } else {
                    None
                },
                message: if parts.len() > 6 {
                    sd_message(parts[6])
                } else {
                    Seq::empty()
                },
            },
        )
    }
}

fn splitn_on(s: &Vec<char>, c: char, n: usize) -> (r: Vec<Vec<char>>)
    ensures
        crate::text::vv(r@) == spec_splitn(s@, c, n as nat),
{
    let mut pieces: Vec<Vec<char>> = Vec::new();
    let mut cur: Vec<char> = Vec::new();
    let mut i: usize = 0;
    while i < s.len()
        invariant
            i <= s.len(),
            (crate::text::vv(pieces@), cur@) == splitn_scan(s@, c, n as nat, i as nat),
            pieces.len() <= i,
        decreases s.len() - i,
    {
        if s[i] == c && pieces.len() + 1 < n {
            let ghost before = pieces@;
            let ghost cv = cur@;
            pieces.push(cur);
            cur = Vec::new();
            assert(crate::text::vv(pieces@) =~= crate::text::vv(before).push(cv));
        } else {
            cur.push(s[i]);
        }
        i = i + 1;
    }
    let ghost before = pieces@;
    let ghost cv = cur@;
    pieces.push(cur);
    assert(crate::text::vv(pieces@) =~= crate::text::vv(before).push(cv));
    pieces
}

fn sd_message_of(r: &Vec<char>) -> (m: Vec<char>)
    ensures
        m@ == sd_message(r@),
{
    let bracket = r.len() > 0 && r[0] == '[';
    let mut p: usize = 0;
    while p < r.len() && !(r[p] == ' ' && (!bracket || (p > 0 && r[p - 1] == ']')))
        invariant
            p <= r.len(),
            bracket == (r@.len() > 0 && r@[0] == '['),
            sd_stop_from(r@, 0, bracket) == sd_stop_from(r@, p as int, bracket),
        decreases r.len() - p,
    {
        p = p + 1;
    }
    if p < r.len() {
        slice(r, p + 1, r.len())
    } else {
        Vec::new()
    }
}

fn rfc5424_fields(rest: &Vec<char>) -> (r: Option<(Option<Timestamp>, Option<String>, String)>)
    ensures
        match spec_rfc5424(rest@) {
            None => r is None,
            Some(f) => r matches Some(x) && x.0 == f.timestamp && crate::models::opt_view(x.1)
                == f.source && x.2@ == f.message,
        },
{
    let parts = splitn_on(rest, ' ', 7);
    if parts.len() < 3 {
        return None;
    }
    let ghost ps = crate::text::vv(parts@);
    assert(ps[1] == parts@[1]@);
    let timestamp = if parts[1].len() == 1 && parts[1][0] == '-' {
        None
    } else {
        parse_rfc3339(string_of(&parts[1]).as_str())
    };
    proof {
        lemma_nil(ps[1]);
    }
    let source = if parts.len() > 3 && !(parts[3].len() == 1 && parts[3][0] == '-') {
        Some(string_of(&parts[3]))
    } else {
        None
    };
    proof {
        if parts.len() > 3 {
            assert(ps[3] == parts@[3]@);
            lemma_nil(ps[3]);
        }
    }
    let message = if parts.len() > 6 {
        assert(ps[6] == parts@[6]@);
        sd_message_of(&parts[6])
    } else {
        Vec::new()
    };
    Some((timestamp, source, string_of(&message)))
}

// ---------------------------------------------------------------------------
// RFC 3164
// ---------------------------------------------------------------------------

/// The `strftime` format of an RFC 3164 timestamp.
pub open spec fn bsd_format() -> Seq<char> {
    "%b %d %H:%M:%S"@
}

/// Where the RFC 3164 text after the timestamp begins (in characters), and the
/// timestamp in the given year: the first 15 bytes are read as `Mmm dd HH:MM:SS`;
/// when they parse, the text goes on after byte 16.
pub open spec fn bsd_head(rest: Seq<char>, year: i32) -> (int, Option<Timestamp>) {
    if bytes_len(rest) >= 15 {
        let k15 = char_at_byte(rest, 15)->0;
        match spec_parse_month_day_time(rest.take(k15), bsd_format()) {
            Some((mo, d, secs, ns)) => (
                char_at_byte(rest, 16)->0,
                ts_of(spec_utc_from_parts(year, mo, d, secs, ns)),
            ),
            None => (0, None),
        }
    } else {
        (0, None)
    }
}

/// The slicing by bytes in the RFC 3164 reading stays on character boundaries, and
/// no `]` comes before the first `[` (the tag is sliced between them).
pub open spec fn bsd_slices_ok(rest: Seq<char>) -> bool {
    bytes_len(rest) >= 15 ==> {
        &&& char_at_byte(rest, 15) is Some
        &&& spec_parse_month_day_time(rest.take(char_at_byte(rest, 15)->0), bsd_format()) is Some
            ==> char_at_byte(rest, 16) is Some
    }
}

/// The first run of non-whitespace characters (`split_whitespace().next()`).
pub open spec fn first_word(s: Seq<char>) -> Option<Seq<char>>
    decreases s.len(),
{
    if s.len() == 0 {
        None
    } else if is_ws(s[0]) {
        first_word(s.drop_first())
    } else {
        Some(word_from(s))
    }
}

/// The leading run of non-whitespace characters.
pub open spec fn word_from(s: Seq<char>) -> Seq<char>
    decreases s.len(),
{
    if s.len() == 0 || is_ws(s[0]) {
        Seq::empty()
    } else {
        seq![s[0]] + word_from(s.drop_first())
    }
}

/// Source and message of the text after an RFC 3164 timestamp: `app[pid]: message`
/// gives the text before `[` and the text after the first `: `; otherwise
/// `host: message` gives the first word before `: ` and the text after it.
pub open spec fn bsd_tail(r: Seq<char>) -> (Option<Seq<char>>, Seq<char>) {
    match find_spec(r, "["@) {
        Some(bs) => match find_spec(r, "]"@) {
            Some(be) => (
                Some(r.take(bs)),
                match find_spec(r, ": "@) {
                    Some(cp) => r.skip(cp + 2),
                    None => r,
                },
            ),
            None => (None, r),
        },
        None => match find_spec(r, ": "@) {
            Some(cp) => (first_word(r.take(cp)), r.skip(cp + 2)),
            None => (None, r),
        },
    }
}

/// No `]` comes before the first `[` of the text after the timestamp.
pub open spec fn brackets_ok(r: Seq<char>) -> bool {
    match (find_spec(r, "["@), find_spec(r, "]"@)) {
        (Some(bs), Some(be)) => bs < be,
        _ => true,
    }
}

fn first_word_of(s: &Vec<char>) -> (r: Option<Vec<char>>)
    ensures
        match r {
            Some(w) => first_word(s@) == Some(w@),
            None => first_word(s@) == None::<Seq<char>>,
        },
{
    let mut i: usize = 0;
    assert(s@.skip(0) =~= s@);
    while i < s.len() && whitespace(s[i])
        invariant
            i <= s.len(),
            first_word(s@) == first_word(s@.skip(i as int)),
        decreases s.len() - i,
    {
        assert(s@.skip(i as int).drop_first() =~= s@.skip(i + 1));
        i = i + 1;
    }
    if i == s.len() {
        assert(s@.skip(i as int) =~= Seq::<char>::empty());
        return None;
    }
    let mut j = i;
    while j < s.len() && !whitespace(s[j])
        invariant
            i <= j <= s.len(),
            word_from(s@.skip(i as int)) == s@.subrange(i as int, j as int) + word_from(
                s@.skip(j as int),
            ),
        decreases s.len() - j,
    {
        proof {
            assert(s@.skip(j as int).drop_first() =~= s@.skip(j + 1));
            assert(s@.subrange(i as int, j + 1) =~= s@.subrange(i as int, j as int) + seq![
                s@[j as int],
            ]);
        }
        j = j + 1;
    }
    proof {
        if j < s.len() {
            assert(word_from(s@.skip(j as int)) =~= Seq::<char>::empty());
        } else {
            assert(s@.skip(j as int) =~= Seq::<char>::empty());
        }
        assert(s@.subrange(i as int, j as int) + Seq::<char>::empty() =~= s@.subrange(
            i as int,
            j as int,
        ));
    }
    Some(slice(s, i, j))
}

fn bsd_tail_of(r: &Vec<char>) -> (res: (Option<String>, String))
    ensures
        (crate::models::opt_view(res.0), res.1@) == bsd_tail(r@),
{
    proof {
        reveal_strlit("[");
        reveal_strlit("]");
        reveal_strlit(": ");
    }
    let ob = find_lit(r, "[");
    let cb = find_lit(r, "]");
    let cp = find_lit(r, ": ");
    let after = match cp {
        Some(c) => slice(r, c + 2, r.len()),
        None => crate::text::copy(r),
    };
    assert(after@ == match find_spec(r@, ": "@) {
        Some(c) => r@.skip(c + 2),
        None => r@,
    });
    match ob {
        Some(bs) => match cb {
            Some(_be) => (Some(string_of(&slice(r, 0, bs))), string_of(&after)),
            None => (None, string_of(r)),
        },
        None => match cp {
            Some(c) => {
                let head = slice(r, 0, c);
                let src = match first_word_of(&head) {
                    Some(w) => Some(string_of(&w)),
                    None => None,
                };
                (src, string_of(&after))
            },
            None => (None, string_of(r)),
        },
    }
}

// ---------------------------------------------------------------------------
// Lines
// ---------------------------------------------------------------------------

/// The position of the `>` that ends a well-formed priority (at most 8 characters in),
/// and the priority.
pub open spec fn priority_of(line: Seq<char>) -> Option<(int, nat)> {
    if line.len() == 0 || line[0] != '<' {
        None
    } else {
        match find_spec(line, ">"@) {
            None => None,
            Some(e) => if e == 0 || e > 8 {
                None
            } else {
                match spec_parse_unsigned(line.subrange(1, e), 255) {
                    Some(p) => Some((e, p)),
                    None => None,
                }
            },
        }
    }
}

/// The lines whose reading stays on character boundaries (see [`bsd_slices_ok`]).
pub open spec fn syslog_slices_ok(line: Seq<char>) -> bool {
    match priority_of(line) {
        None => true,
        Some((e, p)) => {
            let rest = line.skip(e + 1);
            let rfc5424 = rest.len() > 0 && (rest[0] == '1' || rest[0] == '2' || rest[0] == '3')
                && spec_rfc5424(rest) is Some;
            rfc5424 || (bsd_slices_ok(rest) && brackets_ok(rest.skip(bsd_head(rest, 0).0)))
        },
    }
}

/// The entry a syslog line gives when the current year is `year` (RFC 3164 timestamps
/// carry no year): `None` unless it starts with `<priority>`; RFC 5424 when the rest
/// starts with a version digit 1 to 3 and has enough pieces, else RFC 3164.
pub open spec fn spec_syslog_entry(line: Seq<char>, year: i32) -> Option<EntryV> {
    match priority_of(line) {
        None => None,
        Some((e, p)) => {
            let rest = line.skip(e + 1);
            let level = severity_level(p % 8);
            let v = rest.len() > 0 && (rest[0] == '1' || rest[0] == '2' || rest[0] == '3');
            if v && spec_rfc5424(rest) is Some {
                let f = spec_rfc5424(rest)->0;
                Some(
                    EntryV {
                        line_number: 0,
                        timestamp: f.timestamp,
                        level,
                        source: f.source,
                        message: f.message,
                        fields: Seq::empty(),
                        raw_line: line,
                    },
                )
            } else {
                let (k, ts) = bsd_head(rest, year);
                let (source, message) = bsd_tail(rest.skip(k));
                Some(
                    EntryV {
                        line_number: 0,
                        timestamp: ts,
                        level,
                        source,
                        message,
                        fields: Seq::empty(),
                        raw_line: line,
                    },
                )
            }
        },
    }
}

proof fn lemma_bsd_head_offset(rest: Seq<char>, y1: i32, y2: i32)
    ensures
        bsd_head(rest, y1).0 == bsd_head(rest, y2).0,
{
}

fn priority(s: &Vec<char>) -> (r: Option<(usize, u8)>)
    ensures
        match r {
            Some((e, p)) => priority_of(s@) == Some((e as int, p as nat)) && e < s.len(),
            None => priority_of(s@) == None::<(int, nat)>,
        },
{
    if s.len() == 0 || s[0] != '<' {
        return None;
    }
    proof { reveal_strlit(">"); }
    let e = match find_lit(s, ">") {
        Some(e) => e,
        None => return None,
    };
    if e == 0 || e > 8 {
        return None;
    }
    match parse_unsigned(&slice(s, 1, e), 255) {
        Some(p) => Some((e, p as u8)),
        None => None,
    }
}

/// Whether the byte slicing of [`parse_line_in_year`] stays on character boundaries
/// for this line (see [`syslog_slices_ok`]).
pub fn slices_ok(line: &str) -> (r: bool)
    ensures
        r == syslog_slices_ok(line@),
{
    let s = chars_of(line);
    let (e, _p) = match priority(&s) {
        Some(x) => x,
        None => return true,
    };
    let rest = slice(&s, e + 1, s.len());
    assert(rest@ =~= s@.skip(e + 1));
    if rest.len() > 0 && (rest[0] == '1' || rest[0] == '2' || rest[0] == '3') {
        if rfc5424_fields(&rest).is_some() {
            return true;
        }
    }
    let (k, ok) = bsd_offset(&rest);
    if !ok {
        return false;
    }
    let tail = slice(&rest, k, rest.len());
    assert(tail@ =~= rest@.skip(k as int));
    proof {
        reveal_strlit("[");
        reveal_strlit("]");
    }
    match (find_lit(&tail, "["), find_lit(&tail, "]")) {
        (Some(bs), Some(be)) => bs < be,
        _ => true,
    }
}

/// The offset of [`bsd_head`] and whether [`bsd_slices_ok`] holds.
fn bsd_offset(rest: &Vec<char>) -> (r: (usize, bool))
    ensures
        r.1 == bsd_slices_ok(rest@),
        r.1 ==> r.0 as int == bsd_head(rest@, 0).0 && r.0 <= rest.len(),
{
    let b15 = byte_boundary(rest, 15);
    proof {
        reveal_strlit("%b %d %H:%M:%S");
    }
    match b15 {
        None => {
            if bytes_at_least(rest, 15) {
                (0, false)
            } else {
                (0, true)
            }
        },
        Some(k15) => {
            let head = string_of(&slice(rest, 0, k15));
            assert(head@ =~= rest@.take(k15 as int));
            proof {
                lemma_boundary_len(rest@, 15);
            }
            match parse_month_day_time(head.as_str(), "%b %d %H:%M:%S") {
                None => (0, true),
                Some(_) => match byte_boundary(rest, 16) {
                    Some(k16) => (k16, true),
                    None => (0, false),
                },
            }
        },
    }
}

proof fn lemma_boundary_len(s: Seq<char>, b: int)
    requires
        char_at_byte(s, b) is Some,
    ensures
        bytes_len(s) >= b,
{
    let k = char_at_byte(s, b)->0;
    if k < s.len() {
        lemma_bytes_len_take_grows(s, k, s.len() as int);
    }
    assert(s.take(s.len() as int) =~= s);
}

/// Whether `s` takes at least `b` bytes.
fn bytes_at_least(s: &Vec<char>, b: usize) -> (r: bool)
    requires
        b <= 16,
    ensures
        r == (bytes_len(s@) >= b),
{
    let mut k: usize = 0;
    let mut acc: usize = 0;
    assert(s@.take(0) =~= Seq::<char>::empty());
    while k < s.len() && acc < b
        invariant
            k <= s.len(),
            acc as int == bytes_len(s@.take(k as int)),
            acc <= b + 4,
            b <= 16,
        decreases s.len() - k,
    {
        assert(s@.take(k + 1).drop_last() =~= s@.take(k as int));
        acc = acc + char_len(s[k]);
        k = k + 1;
    }
    proof {
        if k < s.len() {
            lemma_bytes_len_take_grows(s@, k as int, s.len() as int);
        }
        assert(s@.take(s.len() as int) =~= s@);
        if acc < b {
            assert(k == s.len());
        }
    }
    acc >= b
}

/// Parse a single syslog line, reading an RFC 3164 timestamp in the given year.
pub fn parse_line_in_year(line: &str, year: i32) -> (r: Option<LogEntry>)
    requires
        syslog_slices_ok(line@),
    ensures
        match spec_syslog_entry(line@, year) {
            None => r is None,
            Some(ev) => r matches Some(e) && e@ == ev,
        },
{
    let s = chars_of(line);
    let (e, p) = match priority(&s) {
        Some(x) => x,
        None => return None,
    };
    let level = level_of_severity(p % 8);
    let rest = slice(&s, e + 1, s.len());
    assert(rest@ =~= s@.skip(e + 1));
    if rest.len() > 0 && (rest[0] == '1' || rest[0] == '2' || rest[0] == '3') {
        if let Some((timestamp, source, message)) = rfc5424_fields(&rest) {
            return Some(
                LogEntry {
                    line_number: 0,
                    timestamp,
                    level,
                    source,
                    message,
                    fields: FieldMap::new(),
                    raw_line: line.to_string(),
                },
            );
        }
    }
    let (k, _ok) = bsd_offset(&rest);
    let mut timestamp: Option<Timestamp> = None;
    proof {
        reveal_strlit("%b %d %H:%M:%S");
        lemma_bsd_head_offset(rest@, year, 0);
    }
    if let Some(k15) = byte_boundary(&rest, 15) {
        proof {
            lemma_boundary_len(rest@, 15);
        }
        let head = string_of(&slice(&rest, 0, k15));
        assert(head@ =~= rest@.take(k15 as int));
        if let Some((mo, d, secs, ns)) = parse_month_day_time(head.as_str(), "%b %d %H:%M:%S") {
            timestamp = utc_from_parts(year, mo, d, secs, ns);
        }
    } else {
        proof {
            assert(bytes_len(rest@) < 15);
        }
    }
    let tail = slice(&rest, k, rest.len());
    assert(tail@ =~= rest@.skip(k as int));
    let (source, message) = bsd_tail_of(&tail);
    Some(
        LogEntry {
            line_number: 0,
            timestamp,
            level,
            source,
            message,
            fields: FieldMap::new(),
            raw_line: line.to_string(),
        },
    )
}

/// Parse a single syslog line, reading an RFC 3164 timestamp in the current local
/// year. A line whose byte slicing would fall inside a character gives `None`.
pub fn parse_line(line: &str) -> (r: Option<LogEntry>)
    ensures
        !syslog_slices_ok(line@) ==> r is None,
        syslog_slices_ok(line@) ==> exists|y: i32|
            #![trigger spec_syslog_entry(line@, y)]
            match spec_syslog_entry(line@, y) {
                None => r is None,
                Some(ev) => r matches Some(e) && e@ == ev,
            },
{
    if !slices_ok(line) {
        return None;
    }
    let year = local_year();
    let r = parse_line_in_year(line, year);
    assert(match spec_syslog_entry(line@, year) {
        None => r is None,
        Some(ev) => r matches Some(e) && e@ == ev,
    });
    r
}

/// Syslog levels: a line that opens with a priority `<p>` gives an entry whose level
/// follows the severity `p % 8`: 0 to 2 fatal, 3 error, 4 warning, 5 info, 6 debug,
/// 7 trace; a line without a priority gives nothing.
pub proof fn lemma_syslog_levels(line: Seq<char>, year: i32)
    ensures
        match priority_of(line) {
            None => spec_syslog_entry(line, year) is None,
            Some((_e, p)) => match spec_syslog_entry(line, year) {
                None => false,
                Some(en) => {
                    &&& p % 8 <= 2 ==> en.level == LevelV::Fatal
                    &&& p % 8 == 3 ==> en.level == LevelV::Error
                    &&& p % 8 == 4 ==> en.level == LevelV::Warn
                    &&& p % 8 == 5 ==> en.level == LevelV::Info
                    &&& p % 8 == 6 ==> en.level == LevelV::Debug
                    &&& p % 8 == 7 ==> en.level == LevelV::Trace
                },
            },
        },
{
}

} // verus!
