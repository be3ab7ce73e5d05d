//! RFC 3339 timestamp with a level: `2026-01-15T10:30:00Z [INFO] message`.
use vstd::prelude::*;
use crate::models::{EntryV, FieldMap, LogEntry, Timestamp};
use crate::pattern::{
    get_group, group, regex_captures, regex_is_match, spec_regex_captures, spec_regex_is_match,
};
use crate::parser::iso_parser::{level_from_word, level_word};
use crate::text::{chars_of, string_of, trim, trim_chars};
use crate::time::{parse_naive, parse_rfc3339, spec_parse_naive, spec_parse_rfc3339, ts_of};

verus! {

/// The layout of an RFC 3339 line.
pub open spec fn rfc3339_pattern() -> Seq<char> {
    r"^(\d{4}-\d{2}-\d{2}[T ]\d{2}:\d{2}:\d{2}(?:\.\d+)?(?:Z|[+-]\d{2}:?\d{2}?)\s+\[?(DEBUG|INFO|WARN(?:ING)?|ERROR|CRIT(?:ICAL)?|FATAL|NOTICE|TRACE)\]?\s+(.*)$"@
}

/// A timestamp: RFC 3339, else `%Y-%m-%d %H:%M:%S%.f`, else `%Y-%m-%d %H:%M:%S`.
pub open spec fn spec_rfc3339_timestamp(s: Seq<char>) -> Option<Timestamp> {
    match ts_of(spec_parse_rfc3339(s)) {
        Some(t) => Some(t),
        None => match ts_of(spec_parse_naive(s, "%Y-%m-%d %H:%M:%S%.f"@)) {
            Some(t) => Some(t),
            None => ts_of(spec_parse_naive(s, "%Y-%m-%d %H:%M:%S"@)),
        },
    }
}

/// The entry an RFC 3339 line gives: the trimmed line must match
/// [`rfc3339_pattern`]; the pattern's three groups always take part in a match.
pub open spec fn spec_rfc3339_entry(line0: Seq<char>) -> Option<EntryV> {
    let line = trim(line0);
    if spec_regex_is_match(rfc3339_pattern(), line) != Some(true) {
        None
    } else {
        match spec_regex_captures(rfc3339_pattern(), line) {
            None => None,
            Some(caps) => match (group(caps, 1), group(caps, 2), group(caps, 3)) {
                (Some(ts), Some(lv), Some(msg)) => Some(
                    EntryV {
                        line_number: 0,
                        timestamp: spec_rfc3339_timestamp(ts),
                        level: level_word(lv),
                        source: None,
                        message: msg,
                        fields: Seq::empty(),
                        raw_line: line,
                    },
                ),
                _ => None,
            },
        }
    }
}

fn line_timestamp(s: &str) -> (r: Option<Timestamp>)
    ensures
        r == spec_rfc3339_timestamp(s@),
{
    if let Some(t) = parse_rfc3339(s) {
        return Some(t);
    }
    if let Some(t) = parse_naive(s, "%Y-%m-%d %H:%M:%S%.f") {
        return Some(t);
    }
    parse_naive(s, "%Y-%m-%d %H:%M:%S")
}

/// Parse an RFC 3339 line (see [`spec_rfc3339_entry`]).
pub fn parse_line(line0: &str) -> (r: Option<LogEntry>)
    ensures
        match spec_rfc3339_entry(line0@) {
            None => r is None,
            Some(ev) => r matches Some(e) && e@ == ev,
        },
{
    let line = string_of(&trim_chars(&chars_of(line0)));
    let p = r"^(\d{4}-\d{2}-\d{2}[T ]\d{2}:\d{2}:\d{2}(?:\.\d+)?(?:Z|[+-]\d{2}:?\d{2}?)\s+\[?(DEBUG|INFO|WARN(?:ING)?|ERROR|CRIT(?:ICAL)?|FATAL|NOTICE|TRACE)\]?\s+(.*)$";
    match regex_is_match(p, line.as_str()) {
        Some(true) => {},
        _ => return None,
    }
    let caps = match regex_captures(p, line.as_str()) {
        Some(c) => c,
        None => return None,
    };
    match (get_group(&caps, 1), get_group(&caps, 2), get_group(&caps, 3)) {
        (Some(ts), Some(lv), Some(msg)) => Some(
            LogEntry {
                line_number: 0,
                timestamp: line_timestamp(ts.as_str()),
                level: level_from_word(lv.as_str()),
                source: None,
                message: msg,
                fields: FieldMap::new(),
                raw_line: line,
            },
        ),
        _ => None,
    }
}

} // verus!
