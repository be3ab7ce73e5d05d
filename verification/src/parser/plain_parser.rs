//! Plain text log parser: a list of regular expressions for common line layouts,
//! tried in order.
use vstd::prelude::*;
use crate::models::{level_of_upper, opt_view, EntryV, FieldMap, LogEntry, LogLevel, Timestamp};
use crate::pattern::{caps_view, get_group, group, regex_captures, spec_regex_captures};
use crate::text::{chars_of, spec_to_uppercase, string_of, trim, trim_chars};
use crate::time::{
    parse_naive, parse_rfc2822, parse_rfc3339, spec_parse_naive, spec_parse_rfc2822,
    spec_parse_rfc3339, ts_of,
};

verus! {

/// Timestamp, level, source and message first, with an optional `[source]`.
pub open spec fn pattern_1() -> Seq<char> {
    r"^(\d{4}-\d{2}-\d{2}[T ]\d{2}:\d{2}:\d{2}(?:\.\d+)?(?:Z|[+-]\d{2}:?\d{2})?)\s+[\[\(]?(TRACE|DEBUG|INFO|WARN(?:ING)?|ERROR|FATAL|CRITICAL|PANIC|VERBOSE)[\]\)]?\s+(?:\[(\S+?)\]\s+)?(.+)$"@
}

/// A bracketed timestamp, then the level and the message.
pub open spec fn pattern_2() -> Seq<char> {
    r"^\[(\d{4}-\d{2}-\d{2}[T ]\d{2}:\d{2}:\d{2}(?:\.\d+)?(?:Z|[+-]\d{2}:?\d{2})?)\]\s*[\[\(]?(TRACE|DEBUG|INFO|WARN(?:ING)?|ERROR|FATAL|CRITICAL|PANIC)[\]\)]?\s*(.+)$"@
}

/// Timestamp, level, then `source: message` (or `|`, `-`).
pub open spec fn pattern_3() -> Seq<char> {
    r"^(\d{4}-\d{2}-\d{2}[T ]\d{2}:\d{2}:\d{2}(?:\.\d+)?(?:Z|[+-]\d{2}:?\d{2})?)\s+[\[\(]?(TRACE|DEBUG|INFO|WARN(?:ING)?|ERROR|FATAL|CRITICAL|PANIC|VERBOSE)[\]\)]?\s*(\S+?)\s*[:|\-]\s*(.+)$"@
}

/// The level first, then an optional timestamp and the message.
pub open spec fn pattern_4() -> Seq<char> {
    r"^\[?(TRACE|DEBUG|INFO|WARN(?:ING)?|ERROR|FATAL|CRITICAL|PANIC)\]?\s+[-:]?\s*(\d{4}-\d{2}-\d{2}[T ]\d{2}:\d{2}:\d{2}(?:\.\d+)?(?:Z|[+-]\d{2}:?\d{2})?)?\s*(.+)$"@
}

/// `LEVEL: message` (or `|`, `-`).
pub open spec fn pattern_5() -> Seq<char> {
    r"^(TRACE|DEBUG|INFO|WARN(?:ING)?|ERROR|FATAL|CRITICAL|PANIC)\s*[:|\-]\s*(.+)$"@
}

/// A layout: its pattern and which groups hold the level, timestamp, source and
/// message.
pub struct Layout {
    pub pattern: Seq<char>,
    pub level: int,
    pub timestamp: Option<int>,
    pub source: Option<int>,
    pub message: int,
}

/// The layouts in the order they are tried.
pub open spec fn layouts() -> Seq<Layout> {
    seq![
        Layout { pattern: pattern_1(), level: 2, timestamp: Some(1), source: Some(3), message: 4 },
        Layout { pattern: pattern_2(), level: 2, timestamp: Some(1), source: None, message: 3 },
        Layout { pattern: pattern_3(), level: 2, timestamp: Some(1), source: Some(3), message: 4 },
        Layout { pattern: pattern_4(), level: 1, timestamp: Some(2), source: None, message: 3 },
        Layout { pattern: pattern_5(), level: 1, timestamp: None, source: None, message: 2 },
    ]
}

/// The `strftime` formats tried after RFC 3339 and RFC 2822, in order.
pub open spec fn plain_formats() -> Seq<Seq<char>> {
    seq![
        "%Y-%m-%d %H:%M:%S%.f"@,
        "%Y-%m-%d %H:%M:%S"@,
        "%Y-%m-%dT%H:%M:%S%.f"@,
        "%Y-%m-%dT%H:%M:%S"@,
        "%d/%b/%Y:%H:%M:%S %z"@,
    ]
}

/// The first of `fmts` (from `k` on) that reads `s`.
pub open spec fn first_naive(s: Seq<char>, fmts: Seq<Seq<char>>, k: nat) -> Option<Timestamp>
    decreases fmts.len() - k,
{
    if k >= fmts.len() {
        None
    } else {
        match ts_of(spec_parse_naive(s, fmts[k as int])) {
            Some(t) => Some(t),
            None => first_naive(s, fmts, k + 1),
        }
    }
}

/// A timestamp: RFC 3339, else RFC 2822, else the first format of
/// [`plain_formats`] that reads it (as UTC).
pub open spec fn spec_plain_timestamp(s: Seq<char>) -> Option<Timestamp> {
    match ts_of(spec_parse_rfc3339(s)) {
        Some(t) => Some(t),
        None => match ts_of(spec_parse_rfc2822(s)) {
            Some(t) => Some(t),
            None => first_naive(s, plain_formats(), 0),
        },
    }
}

/// The entry a layout's captures give.
pub open spec fn entry_of_caps(caps: Seq<Option<Seq<char>>>, l: Layout, line: Seq<char>) -> EntryV {
    let level_str = match group(caps, l.level) {
        Some(s) => s,
        None => "???"@,
    };
    let timestamp = match l.timestamp {
        Some(g) => match group(caps, g) {
            Some(s) => spec_plain_timestamp(s),
            None => None,
        },
        None => None,
    };
    let source = match l.source {
        Some(g) => match group(caps, g) {
            Some(s) => if s.len() > 0 { Some(s) } else { None },
            None => None,
        },
        None => None,
    };
    let message = match group(caps, l.message) {
        Some(s) => trim(s),
        None => Seq::empty(),
    };
    EntryV {
        line_number: 0,
        timestamp,
        level: level_of_upper(spec_to_uppercase(level_str)),
        source,
        message,
        fields: Seq::empty(),
        raw_line: line,
    }
}

/// Trying the layouts from `k` on.
pub open spec fn plain_from(line: Seq<char>, k: nat) -> Option<EntryV>
    decreases 5 - k,
{
    if k >= 5 {
        None
    } else {
        match spec_regex_captures(layouts()[k as int].pattern, line) {
            Some(caps) => Some(entry_of_caps(caps, layouts()[k as int], line)),
            None => plain_from(line, k + 1),
        }
    }
}

/// The entry of the first layout whose pattern matches the line.
pub open spec fn spec_plain_entry(line: Seq<char>) -> Option<EntryV> {
    plain_from(line, 0)
}

/// Parse a timestamp (see [`spec_plain_timestamp`]).
pub fn parse_timestamp(s: &str) -> (r: Option<Timestamp>)
    ensures
        r == spec_plain_timestamp(s@),
{
    if let Some(t) = parse_rfc3339(s) {
        return Some(t);
    }
    if let Some(t) = parse_rfc2822(s) {
        return Some(t);
    }
    proof {
        reveal_with_fuel(first_naive, 6);
    }
    if let Some(t) = parse_naive(s, "%Y-%m-%d %H:%M:%S%.f") {
        return Some(t);
    }
    if let Some(t) = parse_naive(s, "%Y-%m-%d %H:%M:%S") {
        return Some(t);
    }
    if let Some(t) = parse_naive(s, "%Y-%m-%dT%H:%M:%S%.f") {
        return Some(t);
    }
    if let Some(t) = parse_naive(s, "%Y-%m-%dT%H:%M:%S") {
        return Some(t);
    }
    parse_naive(s, "%d/%b/%Y:%H:%M:%S %z")
}

fn entry_from(
    caps: &Vec<Option<String>>,
    level_g: usize,
    ts_g: Option<usize>,
    source_g: Option<usize>,
    message_g: usize,
    line: &str,
) -> (r: LogEntry)
    ensures
        r@ == entry_of_caps(
            crate::pattern::groups_view(caps@),
            Layout {
                pattern: Seq::empty(),
                level: level_g as int,
                timestamp: match ts_g {
                    Some(g) => Some(g as int),
                    None => None,
                },
                source: match source_g {
                    Some(g) => Some(g as int),
                    None => None,
                },
                message: message_g as int,
            },
            line@,
        ),
{
    let level_str = match get_group(caps, level_g) {
        Some(s) => s,
        None => "???".to_string(),
    };
    let timestamp = match ts_g {
        Some(g) => match get_group(caps, g) {
            Some(s) => parse_timestamp(s.as_str()),
            None => None,
        },
        None => None,
    };
    let source = match source_g {
        Some(g) => match get_group(caps, g) {
            Some(s) => {
                let c = chars_of(s.as_str());
                if c.len() > 0 {
                    Some(s)
                } else {
                    None
                }
            },
            None => None,
        },
        None => None,
    };
    let message = match get_group(caps, message_g) {
        Some(s) => string_of(&trim_chars(&chars_of(s.as_str()))),
        None => String::new(),
    };
    LogEntry {
        line_number: 0,
        timestamp,
        level: LogLevel::from_str(level_str.as_str()),
        source,
        message,
        fields: FieldMap::new(),
        raw_line: line.to_string(),
    }
}

/// Parse a plain text log line: the first layout whose pattern matches gives the
/// entry; `None` when none matches.
pub fn parse_line(line: &str) -> (r: Option<LogEntry>)
    ensures
        match spec_plain_entry(line@) {
            None => r is None,
            Some(ev) => r matches Some(e) && e@ == ev,
        },
{
    proof {
        reveal_with_fuel(plain_from, 6);
    }
    let p1 = r"^(\d{4}-\d{2}-\d{2}[T ]\d{2}:\d{2}:\d{2}(?:\.\d+)?(?:Z|[+-]\d{2}:?\d{2})?)\s+[\[\(]?(TRACE|DEBUG|INFO|WARN(?:ING)?|ERROR|FATAL|CRITICAL|PANIC|VERBOSE)[\]\)]?\s+(?:\[(\S+?)\]\s+)?(.+)$";
    if let Some(caps) = regex_captures(p1, line) {
        return Some(entry_from(&caps, 2, Some(1), Some(3), 4, line));
    }
    let p2 = r"^\[(\d{4}-\d{2}-\d{2}[T ]\d{2}:\d{2}:\d{2}(?:\.\d+)?(?:Z|[+-]\d{2}:?\d{2})?)\]\s*[\[\(]?(TRACE|DEBUG|INFO|WARN(?:ING)?|ERROR|FATAL|CRITICAL|PANIC)[\]\)]?\s*(.+)$";
    if let Some(caps) = regex_captures(p2, line) {
        return Some(entry_from(&caps, 2, Some(1), None, 3, line));
    }
    let p3 = r"^(\d{4}-\d{2}-\d{2}[T ]\d{2}:\d{2}:\d{2}(?:\.\d+)?(?:Z|[+-]\d{2}:?\d{2})?)\s+[\[\(]?(TRACE|DEBUG|INFO|WARN(?:ING)?|ERROR|FATAL|CRITICAL|PANIC|VERBOSE)[\]\)]?\s*(\S+?)\s*[:|\-]\s*(.+)$";
    if let Some(caps) = regex_captures(p3, line) {
        return Some(entry_from(&caps, 2, Some(1), Some(3), 4, line));
    }
    let p4 = r"^\[?(TRACE|DEBUG|INFO|WARN(?:ING)?|ERROR|FATAL|CRITICAL|PANIC)\]?\s+[-:]?\s*(\d{4}-\d{2}-\d{2}[T ]\d{2}:\d{2}:\d{2}(?:\.\d+)?(?:Z|[+-]\d{2}:?\d{2})?)?\s*(.+)$";
    if let Some(caps) = regex_captures(p4, line) {
        return Some(entry_from(&caps, 1, Some(2), None, 3, line));
    }
    let p5 = r"^(TRACE|DEBUG|INFO|WARN(?:ING)?|ERROR|FATAL|CRITICAL|PANIC)\s*[:|\-]\s*(.+)$";
    if let Some(caps) = regex_captures(p5, line) {
        return Some(entry_from(&caps, 1, None, None, 2, line));
    }
    None
}

} // verus!
