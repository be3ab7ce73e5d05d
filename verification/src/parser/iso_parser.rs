//! ISO timestamp with a space-separated level: `2026-01-15 10:30:00 INFO message`.
use vstd::prelude::*;
use crate::models::{level_of_upper, EntryV, FieldMap, LevelV, LogEntry, LogLevel, Timestamp};
use crate::pattern::{
    get_group, group, regex_captures, regex_is_match, spec_regex_captures, spec_regex_is_match,
};
use crate::text::{chars_of, has_prefix, spec_to_uppercase, starts_with, string_of, trim, trim_chars};
use crate::time::{parse_naive, parse_rfc3339, spec_parse_naive, spec_parse_rfc3339, ts_of};
use crate::parser::plain_parser::first_naive;

verus! {

/// The layout of an ISO line.
pub open spec fn iso_pattern() -> Seq<char> {
    r"^(\d{4}-\d{2}-\d{2}\s+\d{2}:\d{2}:\d{2}(?:[.,]\d+)?)\s+(DEBUG|INFO|WARN(?:ING)?|ERROR|CRIT(?:ICAL)?|FATAL|NOTICE|TRACE)\s+(.*)"@
}

/// The `strftime` formats tried after RFC 3339, in order.
pub open spec fn iso_formats() -> Seq<Seq<char>> {
    seq!["%Y-%m-%d %H:%M:%S%.f"@, "%Y-%m-%d %H:%M:%S"@, "%Y-%m-%dT%H:%M:%S%.f"@]
}

/// A timestamp: RFC 3339, else the first of [`iso_formats`] that reads it.
pub open spec fn spec_iso_timestamp(s: Seq<char>) -> Option<Timestamp> {
    match ts_of(spec_parse_rfc3339(s)) {
        Some(t) => Some(t),
        None => first_naive(s, iso_formats(), 0),
    }
}

/// A level word: one starting with `WARN` is a warning, with `CRIT` fatal, any other
/// is read by [`level_of_upper`].
pub open spec fn level_word(w: Seq<char>) -> LevelV {
    if starts_with(w, "WARN"@) {
        LevelV::Warn
    } else if starts_with(w, "CRIT"@) {
        LevelV::Fatal
    } else {
        level_of_upper(spec_to_uppercase(w))
    }
}

/// The entry an ISO line gives: the trimmed line must match [`iso_pattern`]; the
/// pattern's three groups always take part in a match.
pub open spec fn spec_iso_entry(line0: Seq<char>) -> Option<EntryV> {
    let line = trim(line0);
    if spec_regex_is_match(iso_pattern(), line) != Some(true) {
        None
    } else {
        match spec_regex_captures(iso_pattern(), line) {
            None => None,
            Some(caps) => match (group(caps, 1), group(caps, 2), group(caps, 3)) {
                (Some(ts), Some(lv), Some(msg)) => Some(
                    EntryV {
                        line_number: 0,
                        timestamp: spec_iso_timestamp(ts),
                        level: level_word(lv),
                        source: None,
                        message: msg,
                        fields: Seq::empty(),
                        raw_line: line,
                    },
                ),
                _ => None,
            },
        }
    }
}

fn iso_timestamp(s: &str) -> (r: Option<Timestamp>)
    ensures
        r == spec_iso_timestamp(s@),
{
    if let Some(t) = parse_rfc3339(s) {
        return Some(t);
    }
    proof {
        reveal_with_fuel(first_naive, 4);
    }
    if let Some(t) = parse_naive(s, "%Y-%m-%d %H:%M:%S%.f") {
        return Some(t);
    }
    if let Some(t) = parse_naive(s, "%Y-%m-%d %H:%M:%S") {
        return Some(t);
    }
    parse_naive(s, "%Y-%m-%dT%H:%M:%S%.f")
}

/// The level a level word names (see [`level_word`]).
pub fn level_from_word(w: &str) -> (r: LogLevel)
    ensures
        r@ == level_word(w@),
{
    let c = chars_of(w);
    let warn = chars_of("WARN");
    let crit = chars_of("CRIT");
    if has_prefix(&c, &warn) {
        LogLevel::Warn
    } else if has_prefix(&c, &crit) {
        LogLevel::Fatal
    } else {
        LogLevel::from_str(w)
    }
}

/// Parse an ISO line (see [`spec_iso_entry`]).
pub fn parse_line(line0: &str) -> (r: Option<LogEntry>)
    ensures
        match spec_iso_entry(line0@) {
            None => r is None,
            Some(ev) => r matches Some(e) && e@ == ev,
        },
{
    let line = string_of(&trim_chars(&chars_of(line0)));
    let p = r"^(\d{4}-\d{2}-\d{2}\s+\d{2}:\d{2}:\d{2}(?:[.,]\d+)?)\s+(DEBUG|INFO|WARN(?:ING)?|ERROR|CRIT(?:ICAL)?|FATAL|NOTICE|TRACE)\s+(.*)";
    match regex_is_match(p, line.as_str()) {
        Some(true) => {},
        _ => return None,
    }
    let caps = match regex_captures(p, line.as_str()) {
        Some(c) => c,
        None => return None,
    };
    match (get_group(&caps, 1), get_group(&caps, 2), get_group(&caps, 3)) {
        (Some(ts), Some(lv), Some(msg)) => Some(
            LogEntry {
                line_number: 0,
                timestamp: iso_timestamp(ts.as_str()),
                level: level_from_word(lv.as_str()),
                source: None,
                message: msg,
                fields: FieldMap::new(),
                raw_line: line,
            },
        ),
        _ => None,
    }
}

} // verus!
