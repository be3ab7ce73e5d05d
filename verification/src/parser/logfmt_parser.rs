//! Logfmt parser: `key=value key2="value with spaces" ...`.
use vstd::prelude::*;
use crate::models::{
    level_of_upper, store, EntryV, FieldMap, LevelV, LogEntry, LogLevel, Timestamp,
};
use crate::text::{chars_of, eq_str, is_ws, spec_to_uppercase, string_of, trim, whitespace};
use crate::time::{parse_rfc2822, parse_rfc3339, spec_parse_rfc2822, spec_parse_rfc3339, ts_of};

verus! {

/// What a `\` followed by `c` stands for inside a double-quoted value.
pub open spec fn unescape(c: char) -> Seq<char> {
    if c == 'n' {
        seq!['\n']
    } else if c == 't' {
        seq!['\t']
    } else if c == '\\' {
        seq!['\\']
    } else if c == '"' {
        seq!['"']
    } else {
        seq!['\\', c]
    }
}

/// A double-quoted value read from `i` (just past the opening quote): its text and
/// the position after the closing quote (or the end of the line).
pub open spec fn dq_scan(s: Seq<char>, i: int) -> (Seq<char>, int)
    decreases s.len() - i,
{
    if i < 0 || i >= s.len() {
        (Seq::empty(), s.len() as int)
    } else if s[i] == '"' {
        (Seq::empty(), i + 1)
    } else if s[i] == '\\' {
        if i + 1 >= s.len() {
            (Seq::empty(), s.len() as int)
        } else {
            let r = dq_scan(s, i + 2);
            (unescape(s[i + 1]) + r.0, r.1)
        }
    } else {
        let r = dq_scan(s, i + 1);
        (seq![s[i]] + r.0, r.1)
    }
}

/// A single-quoted value read from `i` (just past the opening quote).
pub open spec fn sq_scan(s: Seq<char>, i: int) -> (Seq<char>, int)
    decreases s.len() - i,
{
    if i < 0 || i >= s.len() {
        (Seq::empty(), s.len() as int)
    } else if s[i] == '\'' {
        (Seq::empty(), i + 1)
    } else {
        let r = sq_scan(s, i + 1);
        (seq![s[i]] + r.0, r.1)
    }
}

/// An unquoted value read from `i`: up to the next whitespace.
pub open spec fn uq_scan(s: Seq<char>, i: int) -> (Seq<char>, int)
    decreases s.len() - i,
{
    if i < 0 || i >= s.len() || is_ws(s[i]) {
        (Seq::empty(), if i < 0 { 0 } else if i > s.len() { s.len() as int } else { i })
    } else {
        let r = uq_scan(s, i + 1);
        (seq![s[i]] + r.0, r.1)
    }
}

/// The value that starts at `p` and the position after it.
pub open spec fn value_at(s: Seq<char>, p: int) -> (Seq<char>, int) {
    if 0 <= p < s.len() && s[p] == '"' {
        dq_scan(s, p + 1)
    } else if 0 <= p < s.len() && s[p] == '\'' {
        sq_scan(s, p + 1)
    } else {
        uq_scan(s, p)
    }
}

/// The end of the key that starts at `i`: the first `=`, whitespace or end of line.
pub open spec fn key_end(s: Seq<char>, i: int) -> int
    decreases s.len() - i,
{
    if i < 0 || i >= s.len() || s[i] == '=' || is_ws(s[i]) {
        if i < 0 { 0 } else if i > s.len() { s.len() as int } else { i }
    } else {
        key_end(s, i + 1)
    }
}

/// What has been read of a logfmt line so far.
pub struct LfState {
    pub fields: Seq<(Seq<char>, Seq<char>)>,
    pub message: Seq<char>,
    pub level: LevelV,
    pub source: Option<Seq<char>>,
    pub timestamp: Option<Timestamp>,
}

/// The state before anything is read.
pub open spec fn lf_init() -> LfState {
    LfState {
        fields: Seq::empty(),
        message: Seq::empty(),
        level: LevelV::Unknown("???"@),
        source: None,
        timestamp: None,
    }
}

/// The instant a timestamp value gives: RFC 3339, else RFC 2822, else the old one.
pub open spec fn read_timestamp(v: Seq<char>, old: Option<Timestamp>) -> Option<Timestamp> {
    match ts_of(spec_parse_rfc3339(v)) {
        Some(t) => Some(t),
        None => match ts_of(spec_parse_rfc2822(v)) {
            Some(t) => Some(t),
            None => old,
        },
    }
}

/// The effect of one `key=value` pair: the known keys set the message, level, source
/// or timestamp, any other key becomes a field.
pub open spec fn apply_pair(st: LfState, k: Seq<char>, v: Seq<char>) -> LfState {
    if k == "msg"@ || k == "message"@ || k == "text"@ || k == "log"@ {
        LfState { message: v, ..st }
    } else if k == "level"@ || k == "severity"@ || k == "lvl"@ {
        LfState { level: level_of_upper(spec_to_uppercase(v)), ..st }
    } else if k == "logger"@ || k == "source"@ || k == "module"@ || k == "component"@ {
        LfState { source: Some(v), ..st }
    } else if k == "timestamp"@ || k == "time"@ || k == "ts"@ || k == "@timestamp"@ {
        LfState { timestamp: read_timestamp(v, st.timestamp), ..st }
    } else {
        LfState { fields: store(st.fields, k, v), ..st }
    }
}

/// One step of the reader at `i < s.len()`: the new state and where reading goes on.
/// Whitespace and a stray `=` are skipped; a key without `=` is a flag worth "true".
pub open spec fn lf_step(s: Seq<char>, i: int, st: LfState) -> (LfState, int) {
    if is_ws(s[i]) {
        (st, i + 1)
    } else {
        let j = key_end(s, i);
        if j == i {
            (st, i + 1)
        } else if j < s.len() && s[j] == '=' {
            let v = value_at(s, j + 1);
            (apply_pair(st, s.subrange(i, j), v.0), v.1)
        } else {
            (LfState { fields: store(st.fields, s.subrange(i, j), "true"@), ..st }, j)
        }
    }
}

/// The state after reading the rest of the line from `i`.
pub open spec fn lf_run(s: Seq<char>, i: int, st: LfState) -> LfState
    decreases s.len() - i,
{
    if i < 0 || i >= s.len() {
        st
    } else {
        let (st2, n) = lf_step(s, i, st);
        if i < n <= s.len() {
            lf_run(s, n, st2)
        } else {
            st2
        }
    }
}

/// The entry a logfmt line gives.
pub open spec fn spec_logfmt_entry(line: Seq<char>) -> EntryV {
    let st = lf_run(line, 0, lf_init());
    EntryV {
        line_number: 0,
        timestamp: st.timestamp,
        level: st.level,
        source: st.source,
        message: st.message,
        fields: st.fields,
        raw_line: line,
    }
}

fn dq_value(s: &Vec<char>, start: usize) -> (r: (Vec<char>, usize))
    requires
        start <= s.len(),
    ensures
        (r.0@, r.1 as int) == dq_scan(s@, start as int),
        start <= r.1 <= s.len(),
{
    let mut out: Vec<char> = Vec::new();
    let mut i = start;
    while i < s.len()
        invariant
            start <= i <= s.len(),
            dq_scan(s@, start as int) == (out@ + dq_scan(s@, i as int).0, dq_scan(s@, i as int).1),
        decreases s.len() - i,
    {
        let c = s[i];
        if c == '"' {
            assert(out@ + Seq::<char>::empty() =~= out@);
            return (out, i + 1);
        } else if c == '\\' {
            if i + 1 >= s.len() {
                assert(out@ + Seq::<char>::empty() =~= out@);
                return (out, s.len());
            }
            let d = s[i + 1];
            let ghost before = out@;
            let ghost rest = dq_scan(s@, i + 2);
            if d == 'n' {
                out.push('\n');
            } else if d == 't' {
                out.push('\t');
            } else if d == '\\' {
                out.push('\\');
            } else if d == '"' {
                out.push('"');
            } else {
                out.push('\\');
                out.push(d);
            }
            assert(out@ =~= before + unescape(d));
            assert(before + (unescape(d) + rest.0) =~= out@ + rest.0);
            i = i + 2;
        } else {
            let ghost before = out@;
            let ghost rest = dq_scan(s@, i + 1);
            out.push(c);
            assert(before + (seq![c] + rest.0) =~= out@ + rest.0);
            i = i + 1;
        }
    }
    assert(out@ + Seq::<char>::empty() =~= out@);
    (out, s.len())
}

fn sq_value(s: &Vec<char>, start: usize) -> (r: (Vec<char>, usize))
    requires
        start <= s.len(),
    ensures
        (r.0@, r.1 as int) == sq_scan(s@, start as int),
        start <= r.1 <= s.len(),
{
    let mut out: Vec<char> = Vec::new();
    let mut i = start;
    while i < s.len()
        invariant
            start <= i <= s.len(),
            sq_scan(s@, start as int) == (out@ + sq_scan(s@, i as int).0, sq_scan(s@, i as int).1),
        decreases s.len() - i,
    {
        let c = s[i];
        if c == '\'' {
            assert(out@ + Seq::<char>::empty() =~= out@);
            return (out, i + 1);
        }
        let ghost before = out@;
        let ghost rest = sq_scan(s@, i + 1);
        out.push(c);
        assert(before + (seq![c] + rest.0) =~= out@ + rest.0);
        i = i + 1;
    }
    assert(out@ + Seq::<char>::empty() =~= out@);
    (out, s.len())
}

fn uq_value(s: &Vec<char>, start: usize) -> (r: (Vec<char>, usize))
    requires
        start <= s.len(),
    ensures
        (r.0@, r.1 as int) == uq_scan(s@, start as int),
        start <= r.1 <= s.len(),
{
    let mut out: Vec<char> = Vec::new();
    let mut i = start;
    while i < s.len() && !whitespace(s[i])
        invariant
            start <= i <= s.len(),
            uq_scan(s@, start as int) == (out@ + uq_scan(s@, i as int).0, uq_scan(s@, i as int).1),
        decreases s.len() - i,
    {
        let c = s[i];
        let ghost before = out@;
        let ghost rest = uq_scan(s@, i + 1);
        out.push(c);
        assert(before + (seq![c] + rest.0) =~= out@ + rest.0);
        i = i + 1;
    }
    assert(out@ + Seq::<char>::empty() =~= out@);
    (out, i)
}

/// Reads the value that starts at `p` (see [`value_at`]).
pub fn parse_value(s: &Vec<char>, p: usize) -> (r: (Vec<char>, usize))
    requires
        p <= s.len(),
    ensures
        (r.0@, r.1 as int) == value_at(s@, p as int),
        p <= r.1 <= s.len(),
{
    if p < s.len() && s[p] == '"' {
        dq_value(s, p + 1)
    } else if p < s.len() && s[p] == '\'' {
        sq_value(s, p + 1)
    } else {
        uq_value(s, p)
    }
}

fn key_end_at(s: &Vec<char>, i: usize) -> (r: usize)
    requires
        i <= s.len(),
    ensures
        r as int == key_end(s@, i as int),
        i <= r <= s.len(),
{
    let mut j = i;
    while j < s.len() && s[j] != '=' && !whitespace(s[j])
        invariant
            i <= j <= s.len(),
            key_end(s@, i as int) == key_end(s@, j as int),
        decreases s.len() - j,
    {
        j = j + 1;
    }
    j
}

/// Parse a single logfmt line; `None` for a line of whitespace only.
pub fn parse_line(line: &str) -> (r: Option<LogEntry>)
    ensures
        match r {
            None => trim(line@).len() == 0,
            Some(e) => trim(line@).len() > 0 && e@ == spec_logfmt_entry(line@),
        },
{
    let s = chars_of(line);
    let t = crate::text::trim_chars(&s);
    if t.len() == 0 {
        return None;
    }
    let mut fields = FieldMap::new();
    let mut message = String::new();
    let mut level = LogLevel::Unknown("???".to_string());
    let mut source: Option<String> = None;
    let mut timestamp: Option<Timestamp> = None;
    let mut i: usize = 0;
    while i < s.len()
        invariant
            s@ == line@,
            i <= s.len(),
            lf_run(s@, 0, lf_init()) == lf_run(
                s@,
                i as int,
                LfState {
                    fields: fields.view_pairs(),
                    message: message@,
                    level: level@,
                    source: crate::models::opt_view(source),
                    timestamp,
                },
            ),
        decreases s.len() - i,
    {
        let ghost st = LfState {
            fields: fields.view_pairs(),
            message: message@,
            level: level@,
            source: crate::models::opt_view(source),
            timestamp,
        };
        if whitespace(s[i]) {
            i = i + 1;
        } else {
            let j = key_end_at(&s, i);
            if j == i {
                i = i + 1;
            } else if j < s.len() && s[j] == '=' {
                let key = crate::text::slice(&s, i, j);
                let (v, e) = parse_value(&s, j + 1);
                let vs = string_of(&v);
                proof {
                    reveal_strlit("msg");
                    reveal_strlit("message");
                    reveal_strlit("text");
                    reveal_strlit("log");
                    reveal_strlit("level");
                    reveal_strlit("severity");
                    reveal_strlit("lvl");
                    reveal_strlit("logger");
                    reveal_strlit("source");
                    reveal_strlit("module");
                    reveal_strlit("component");
                    reveal_strlit("timestamp");
                    reveal_strlit("time");
                    reveal_strlit("ts");
                    reveal_strlit("@timestamp");
                }
                if eq_str(&key, "msg") || eq_str(&key, "message") || eq_str(&key, "text")
                    || eq_str(&key, "log") {
                    message = vs;
                } else if eq_str(&key, "level") || eq_str(&key, "severity") || eq_str(
                    &key,
                    "lvl",
                ) {
                    level = LogLevel::from_str(vs.as_str());
                } else if eq_str(&key, "logger") || eq_str(&key, "source") || eq_str(
                    &key,
                    "module",
                ) || eq_str(&key, "component") {
                    source = Some(vs);
                } else if eq_str(&key, "timestamp") || eq_str(&key, "time") || eq_str(&key, "ts")
                    || eq_str(&key, "@timestamp") {
                    match parse_rfc3339(vs.as_str()) {
                        Some(t) => {
                            timestamp = Some(t);
                        },
                        None => match parse_rfc2822(vs.as_str()) {
                            Some(t) => {
                                timestamp = Some(t);
                            },
                            None => {},
                        },
                    }
                } else {
                    fields.insert(string_of(&key), vs);
                }
                i = e;
            } else {
                let key = crate::text::slice(&s, i, j);
                fields.insert(string_of(&key), "true".to_string());
                i = j;
            }
        }
    }
    Some(
        LogEntry {
            line_number: 0,
            timestamp,
            level,
            source,
            message,
            fields,
            raw_line: line.to_string(),
        },
    )
}

} // verus!
