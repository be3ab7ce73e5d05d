//! Apache/Nginx access log parser:
//! `127.0.0.1 - frank [10/Oct/2000:13:55:36 -0700] "GET /a.gif HTTP/1.1" 200 2326 "http://ref" "Mozilla/4.0"`.
use vstd::prelude::*;
use crate::models::{store, EntryV, FieldMap, LevelV, LogEntry, LogLevel};
use crate::parser::syslog_parser::{parse_unsigned, spec_parse_unsigned};
use crate::pattern::{
    get_group, group, regex_captures, regex_is_match, spec_regex_captures, spec_regex_is_match,
};
use crate::text::{chars_of, push_str, string_of, trim, trim_chars};

verus! {

/// The layout of an access log line.
pub open spec fn access_pattern() -> Seq<char> {
    r#"^(\S+) - (\S+) \[([^\]]+)\] "(\S+) (\S+) (\S+)" (\d{3}) (\d+|-) "([^"]*)" "([^"]*)""#@
}

/// The level of an HTTP status: 500 and up an error, 400 and up a warning.
pub open spec fn status_level(status: nat) -> LevelV {
    if status >= 500 {
        LevelV::Error
    } else if status >= 400 {
        LevelV::Warn
    } else {
        LevelV::Info
    }
}

/// The group `g` of `caps`, or "" (the pattern's groups always take part).
pub open spec fn grp(caps: Seq<Option<Seq<char>>>, g: int) -> Seq<char> {
    match group(caps, g) {
        Some(s) => s,
        None => Seq::empty(),
    }
}

/// All ten groups took part in the match.
pub open spec fn all_groups(caps: Seq<Option<Seq<char>>>) -> bool {
    forall|g: int| 1 <= g <= 10 ==> (#[trigger] group(caps, g)) is Some
}

/// The fields of an access line, in insertion order.
pub open spec fn access_fields(caps: Seq<Option<Seq<char>>>) -> Seq<(Seq<char>, Seq<char>)> {
    let f0 = Seq::<(Seq<char>, Seq<char>)>::empty();
    let f1 = store(f0, "method"@, grp(caps, 4));
    let f2 = store(f1, "path"@, grp(caps, 5));
    let f3 = store(f2, "protocol"@, grp(caps, 6));
    let f4 = store(f3, "status"@, grp(caps, 7));
    let f5 = store(f4, "size"@, grp(caps, 8));
    let f6 = store(f5, "referer"@, grp(caps, 9));
    store(f6, "useragent"@, grp(caps, 10))
}

/// The entry an access line gives: the trimmed line must match [`access_pattern`] and
/// its status must read as a `u16`; the message is `METHOD PATH PROTOCOL`, the source
/// the client address.
pub open spec fn spec_access_entry(line0: Seq<char>) -> Option<EntryV> {
    let line = trim(line0);
    if spec_regex_is_match(access_pattern(), line) != Some(true) {
        None
    } else {
        match spec_regex_captures(access_pattern(), line) {
            None => None,
            Some(caps) => if !all_groups(caps) {
                None
            } else {
                match spec_parse_unsigned(grp(caps, 7), 65535) {
                    None => None,
                    Some(status) => Some(
                        EntryV {
                            line_number: 0,
                            timestamp: None,
                            level: status_level(status),
                            source: Some(grp(caps, 1)),
                            message: grp(caps, 4) + " "@ + grp(caps, 5) + " "@ + grp(caps, 6),
                            fields: access_fields(caps),
                            raw_line: line,
                        },
                    ),
                }
            },
        }
    }
}

/// Parse an access log line (see [`spec_access_entry`]).
pub fn parse_line(line0: &str) -> (r: Option<LogEntry>)
    ensures
        match spec_access_entry(line0@) {
            None => r is None,
            Some(ev) => r matches Some(e) && e@ == ev,
        },
{
    let line = string_of(&trim_chars(&chars_of(line0)));
    let p = r#"^(\S+) - (\S+) \[([^\]]+)\] "(\S+) (\S+) (\S+)" (\d{3}) (\d+|-) "([^"]*)" "([^"]*)""#;
    match regex_is_match(p, line.as_str()) {
        Some(true) => {},
        _ => return None,
    }
    let caps = match regex_captures(p, line.as_str()) {
        Some(c) => c,
        None => return None,
    };
    let ghost cv = crate::pattern::groups_view(caps@);
    let mut parts: Vec<String> = Vec::new();
    let mut g: usize = 1;
    while g <= 10
        invariant
            1 <= g <= 11,
            cv == crate::pattern::groups_view(caps@),
            line@ == trim(line0@),
            spec_regex_is_match(access_pattern(), line@) == Some(true),
            spec_regex_captures(access_pattern(), line@) == Some(cv),
            parts.len() == g - 1,
            forall|h: int| 1 <= h < g ==> (#[trigger] group(cv, h)) is Some && parts@[h - 1]@
                == grp(cv, h),
        decreases 11 - g,
    {
        match get_group(&caps, g) {
            Some(s) => {
                parts.push(s);
            },
            None => {
                assert(group(cv, g as int) is None);
                return None;
            },
        }
        g = g + 1;
    }
    assert(all_groups(cv));
    let status = match parse_unsigned(&chars_of(parts[6].as_str()), 65535) {
        Some(s) => s,
        None => return None,
    };
    let level = if status >= 500 {
        LogLevel::Error
    } else if status >= 400 {
        LogLevel::Warn
    } else {
        LogLevel::Info
    };
    let mut message = parts[3].clone();
    push_str(&mut message, " ");
    push_str(&mut message, parts[4].as_str());
    push_str(&mut message, " ");
    push_str(&mut message, parts[5].as_str());
    let mut fields = FieldMap::new();
    fields.insert("method".to_string(), parts[3].clone());
    fields.insert("path".to_string(), parts[4].clone());
    fields.insert("protocol".to_string(), parts[5].clone());
    fields.insert("status".to_string(), parts[6].clone());
    fields.insert("size".to_string(), parts[7].clone());
    fields.insert("referer".to_string(), parts[8].clone());
    fields.insert("useragent".to_string(), parts[9].clone());
    Some(
        LogEntry {
            line_number: 0,
            timestamp: None,
            level,
            source: Some(parts[0].clone()),
            message,
            fields,
            raw_line: line,
        },
    )
}

} // verus!
