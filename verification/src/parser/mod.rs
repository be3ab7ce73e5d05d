//! Log format parsers, and reading a whole text line by line.
pub mod access_parser;
pub mod iso_parser;
pub mod json_parser;
pub mod logfmt_parser;
pub mod plain_parser;
pub mod rfc3339_parser;
pub mod syslog_parser;

use vstd::prelude::*;
use crate::models::{EntryV, FieldMap, LevelV, LogEntry, LogLevel};
use crate::parser::json_parser::{spec_json_entry, spec_json_object};
use crate::parser::logfmt_parser::spec_logfmt_entry;
use crate::parser::syslog_parser::{spec_syslog_entry, syslog_slices_ok};
use crate::text::{chars_of, eq_str, lower_chars, spec_lines, spec_to_lowercase, split_lines, string_of, trim, vv};

verus! {

/// Supported log formats.
#[derive(Debug, Clone, Copy, PartialEq, Eq, Structural)]
pub enum LogFormat {
    Json,
    Logfmt,
    Syslog,
    Plain,
    Auto,
}

/// The format a (lower-cased) name selects; an unknown name selects plain text.
pub open spec fn format_of_lower(s: Seq<char>) -> LogFormat {
    if s == "json"@ || s == "jsonl"@ {
        LogFormat::Json
    } else if s == "logfmt"@ {
        LogFormat::Logfmt
    } else if s == "syslog"@ || s == "rfc5424"@ {
        LogFormat::Syslog
    } else if s == "plain"@ || s == "text"@ || s == "log"@ {
        LogFormat::Plain
    } else if s == "auto"@ || s.len() == 0 {
        LogFormat::Auto
    } else {
        LogFormat::Plain
    }
}

/// All supported format names.
pub open spec fn format_names() -> Seq<Seq<char>> {
    seq![
        "json"@, "jsonl"@, "logfmt"@, "syslog"@, "rfc5424"@, "plain"@, "text"@, "log"@,
        "auto"@, "rfc3339"@, "iso"@, "access"@, "simple"@, "level"@, "ts"@,
    ]
}

impl LogFormat {
    /// The format a name selects, ignoring case (see [`format_of_lower`]).
    pub fn from_str(s: &str) -> (r: LogFormat)
        ensures
            r == format_of_lower(spec_to_lowercase(s@)),
    {
        let l = lower_chars(s);
        if eq_str(&l, "json") || eq_str(&l, "jsonl") {
            LogFormat::Json
        } else if eq_str(&l, "logfmt") {
            LogFormat::Logfmt
        } else if eq_str(&l, "syslog") || eq_str(&l, "rfc5424") {
            LogFormat::Syslog
        } else if eq_str(&l, "plain") || eq_str(&l, "text") || eq_str(&l, "log") {
            LogFormat::Plain
        } else if eq_str(&l, "auto") || l.len() == 0 {
            LogFormat::Auto
        } else {
            LogFormat::Plain
        }
    }

    /// List all supported format names.
    pub fn all_names() -> (r: Vec<&'static str>)
        ensures
            r@.map_values(|n: &str| n@) == format_names(),
    {
        let r = vec![
            "json", "jsonl", "logfmt", "syslog", "rfc5424", "plain", "text", "log", "auto",
            "rfc3339", "iso", "access", "simple", "level", "ts",
        ];
        assert(r@.map_values(|n: &str| n@) =~= format_names());
        r
    }
}

/// What a syslog line gives when the current year is `year`; a line whose byte
/// slicing would fall inside a character gives nothing.
pub open spec fn syslog_outcome(line: Seq<char>, year: i32) -> Option<EntryV> {
    if syslog_slices_ok(line) {
        spec_syslog_entry(line, year)
    } else {
        None
    }
}

/// What a logfmt line gives.
pub open spec fn logfmt_outcome(line: Seq<char>) -> Option<EntryV> {
    if trim(line).len() == 0 {
        None
    } else {
        Some(spec_logfmt_entry(line))
    }
}

/// What a JSON line gives, from its reading as a JSON object.
pub open spec fn json_outcome(line: Seq<char>) -> Option<EntryV> {
    match spec_json_object(line) {
        Some(o) => Some(spec_json_entry(o, line)),
        None => None,
    }
}

/// What a line gives in a format: `Auto` tries JSON, logfmt, syslog and plain text in
/// turn.
pub open spec fn spec_parse_line(
    line: Seq<char>,
    format: LogFormat,
    year: i32,
) -> Option<EntryV> {
    match format {
        LogFormat::Json => json_outcome(line),
        LogFormat::Logfmt => logfmt_outcome(line),
        LogFormat::Syslog => syslog_outcome(line, year),
        LogFormat::Plain => plain_parser::spec_plain_entry(line),
        LogFormat::Auto => match json_outcome(line) {
            Some(e) => Some(e),
            None => match logfmt_outcome(line) {
                Some(e) => Some(e),
                None => match syslog_outcome(line, year) {
                    Some(e) => Some(e),
                    None => plain_parser::spec_plain_entry(line),
                },
            },
        },
    }
}

/// What a line gives in a named extended format (`rfc3339`, `iso`, `access`).
pub open spec fn spec_parse_line_extended(line: Seq<char>, name: Seq<char>) -> Option<EntryV> {
    if name == "rfc3339"@ {
        rfc3339_parser::spec_rfc3339_entry(line)
    } else if name == "iso"@ {
        iso_parser::spec_iso_entry(line)
    } else if name == "access"@ {
        access_parser::spec_access_entry(line)
    } else {
        None
    }
}

/// What a line gives: in the named format when a name is given, else in `format`.
pub open spec fn line_outcome(
    line: Seq<char>,
    format: LogFormat,
    name: Seq<char>,
    year: i32,
) -> Option<EntryV> {
    if name.len() > 0 {
        spec_parse_line_extended(line, name)
    } else {
        spec_parse_line(line, format, year)
    }
}

/// The entry kept for a line no parser reads.
pub open spec fn unparsed(line: Seq<char>, n: int) -> EntryV {
    EntryV {
        line_number: n as usize,
        timestamp: None,
        level: LevelV::Unknown("???"@),
        source: None,
        message: line,
        fields: Seq::empty(),
        raw_line: line,
    }
}

/// The entries and the number of unparsed lines of a text split into `lines`, with
/// the current year at each line: empty lines are skipped, each
/// other line gives its entry with its (1-based) line number, or, when no parser
/// reads it, an [`unparsed`] entry that is counted.
pub open spec fn spec_parse_lines(
    lines: Seq<Seq<char>>,
    format: LogFormat,
    name: Seq<char>,
    years: Seq<i32>,
) -> (Seq<EntryV>, nat)
    decreases lines.len(),
{
    if lines.len() == 0 {
        (Seq::empty(), 0)
    } else {
        let n = lines.len() - 1;
        let (es, errs) = spec_parse_lines(lines.drop_last(), format, name, years.take(n));
        let line = lines.last();
        if line.len() == 0 {
            (es, errs)
        } else {
            match line_outcome(line, format, name, years[n]) {
                Some(e) => (es.push(EntryV { line_number: (n + 1) as usize, ..e }), errs),
                None => (es.push(unparsed(line, n + 1)), errs + 1),
            }
        }
    }
}

pub open spec fn entries_view(v: Seq<LogEntry>) -> Seq<EntryV> {
    v.map_values(|e: LogEntry| e@)
}

/// The result matches what a parser was to give.
pub open spec fn gives(r: Option<LogEntry>, e: Option<EntryV>) -> bool {
    match e {
        None => r is None,
        Some(ev) => r matches Some(x) && x@ == ev,
    }
}

fn parse_line(line: &str, format: LogFormat) -> (r: Option<LogEntry>)
    ensures
        exists|y: i32| #[trigger] gives(r, spec_parse_line(line@, format, y)),
{
    match format {
        LogFormat::Json => {
            let r = json_parser::parse_line(line);
            assert(gives(r, spec_parse_line(line@, format, 0)));
            r
        },
        LogFormat::Logfmt => {
            let r = logfmt_parser::parse_line(line);
            assert(gives(r, spec_parse_line(line@, format, 0)));
            r
        },
        LogFormat::Syslog => {
            let r = syslog_parser::parse_line(line);
            proof {
                let y = if syslog_slices_ok(line@) {
                    choose|y: i32| gives(r, spec_syslog_entry(line@, y))
                } else {
                    0
                };
                assert(gives(r, spec_parse_line(line@, format, y)));
            }
            r
        },
        LogFormat::Plain => {
            let r = plain_parser::parse_line(line);
            assert(gives(r, spec_parse_line(line@, format, 0)));
            r
        },
        LogFormat::Auto => {
            let js = json_parser::parse_line(line);
            if js.is_some() {
                assert(gives(js, spec_parse_line(line@, format, 0)));
                return js;
            }
            let l = logfmt_parser::parse_line(line);
            if l.is_some() {
                assert(gives(l, spec_parse_line(line@, format, 0)));
                return l;
            }
            let s = syslog_parser::parse_line(line);
            let ghost y = if syslog_slices_ok(line@) {
                choose|y: i32| gives(s, spec_syslog_entry(line@, y))
            } else {
                0
            };
            assert(gives(s, syslog_outcome(line@, y)));
            if s.is_some() {
                assert(gives(s, spec_parse_line(line@, format, y)));
                return s;
            }
            let p = plain_parser::parse_line(line);
            assert(gives(p, spec_parse_line(line@, format, y)));
            p
        },
    }
}

fn parse_line_extended(line: &str, name: &Vec<char>) -> (r: Option<LogEntry>)
    ensures
        gives(r, spec_parse_line_extended(line@, name@)),
{
    if eq_str(name, "rfc3339") {
        rfc3339_parser::parse_line(line)
    } else if eq_str(name, "iso") {
        iso_parser::parse_line(line)
    } else if eq_str(name, "access") {
        access_parser::parse_line(line)
    } else {
        None
    }
}

/// Parse log lines using the specified format.
pub fn parse_logs(content: &str, format: LogFormat) -> (r: (Vec<LogEntry>, usize))
    ensures
        exists|years: Seq<i32>|
            years.len() == spec_lines(content@).len() && #[trigger] spec_parse_lines(
                spec_lines(content@),
                format,
                Seq::empty(),
                years,
            ) == (entries_view(r.0@), r.1 as nat),
{
    proof {
        reveal_strlit("");
        assert(""@ =~= Seq::<char>::empty());
    }
    parse_logs_with_format(content, format, "")
}

/// Parse log lines using the specified format or a named extended format.
pub fn parse_logs_with_format(content: &str, format: LogFormat, format_name: &str) -> (r: (
    Vec<LogEntry>,
    usize,
))
    ensures
        exists|years: Seq<i32>|
            years.len() == spec_lines(content@).len() && #[trigger] spec_parse_lines(
                spec_lines(content@),
                format,
                format_name@,
                years,
            ) == (entries_view(r.0@), r.1 as nat),
{
    let lines = split_lines(content);
    let name = chars_of(format_name);
    let ghost ls = vv(lines@);
    let ghost mut years: Seq<i32> = Seq::empty();
    let mut entries: Vec<LogEntry> = Vec::new();
    let mut errors: usize = 0;
    let mut k: usize = 0;
    proof {
        assert(ls.take(0) =~= Seq::<Seq<char>>::empty());
        assert(entries_view(entries@) =~= Seq::<EntryV>::empty());
    }
    while k < lines.len()
        invariant
            k <= lines.len(),
            ls == vv(lines@),
            ls == spec_lines(content@),
            name@ == format_name@,
            years.len() == k,
            errors <= k,
            entries.len() <= k,
            spec_parse_lines(ls.take(k as int), format, name@, years) == (
                entries_view(entries@),
                errors as nat,
            ),
        decreases lines.len() - k,
    {
        let line = &lines[k];
        let ghost prev_years = years;
        proof {
            let t = ls.take(k + 1);
            assert(t.drop_last() =~= ls.take(k as int));
            assert(t.last() == line@);
        }
        if line.len() == 0 {
            proof {
                years = years.push(0);
                assert(years.take(k as int) =~= prev_years);
            }
        } else {
            let text = string_of(line);
            let result = if name.len() > 0 {
                let r = parse_line_extended(text.as_str(), &name);
                proof {
                    years = years.push(0);
                    assert(gives(r, line_outcome(line@, format, name@, 0)));
                }
                r
            } else {
                let r = parse_line(text.as_str(), format);
                proof {
                    let y = choose|y: i32| #[trigger] gives(r, spec_parse_line(text@, format, y));
                    years = years.push(y);
                }
                r
            };
            proof {
                assert(years.take(k as int) =~= prev_years);
                assert(gives(result, line_outcome(line@, format, name@, years[k as int])));
            }
            let ghost before = entries@;
            match result {
                Some(mut entry) => {
                    entry.line_number = k + 1;
                    entries.push(entry);
                },
                None => {
                    errors = errors + 1;
                    entries.push(
                        LogEntry {
                            line_number: k + 1,
                            timestamp: None,
                            level: LogLevel::Unknown("???".to_string()),
                            source: None,
                            message: text.clone(),
                            fields: FieldMap::new(),
                            raw_line: text,
                        },
                    );
                },
            }
            proof {
                assert(entries_view(entries@) =~= entries_view(before).push(entries@.last()@));
            }
        }
        k = k + 1;
    }
    proof {
        assert(ls.take(lines.len() as int) =~= ls);
    }
    (entries, errors)
}

/// The number of non-empty lines.
pub open spec fn nonempty_lines(lines: Seq<Seq<char>>) -> nat
    decreases lines.len(),
{
    if lines.len() == 0 {
        0
    } else {
        nonempty_lines(lines.drop_last()) + if lines.last().len() > 0 {
            1nat
        } else {
            0nat
        }
    }
}

/// Reading a text gives one entry per non-empty line, in order of their line numbers,
/// and no more unparsed lines than entries.
pub proof fn lemma_parse_lines_counts(
    lines: Seq<Seq<char>>,
    format: LogFormat,
    name: Seq<char>,
    years: Seq<i32>,
)
    requires
        years.len() == lines.len(),
        lines.len() <= usize::MAX,
    ensures
        spec_parse_lines(lines, format, name, years).0.len() == nonempty_lines(lines),
        spec_parse_lines(lines, format, name, years).1 <= nonempty_lines(lines),
        forall|i: int, j: int|
            0 <= i < j < spec_parse_lines(lines, format, name, years).0.len() ==> (
            #[trigger] spec_parse_lines(lines, format, name, years).0[i]).line_number
                < (#[trigger] spec_parse_lines(lines, format, name, years).0[j]).line_number,
        forall|i: int|
            0 <= i < spec_parse_lines(lines, format, name, years).0.len() ==> 1 <= (
            #[trigger] spec_parse_lines(lines, format, name, years).0[i]).line_number
                <= lines.len(),
    decreases lines.len(),
{
    if lines.len() > 0 {
        let n = lines.len() - 1;
        lemma_parse_lines_counts(lines.drop_last(), format, name, years.take(n));
        let (es, errs) = spec_parse_lines(lines.drop_last(), format, name, years.take(n));
        let r = spec_parse_lines(lines, format, name, years);
        if lines.last().len() > 0 {
            assert(r.0.drop_last() =~= es);
            assert(r.0.last().line_number == (n + 1) as usize);
            assert forall|i: int, j: int| 0 <= i < j < r.0.len() implies (#[trigger] r.0[i]).line_number
                < (#[trigger] r.0[j]).line_number by {
                if j < r.0.len() - 1 {
                    assert(r.0[i] == es[i] && r.0[j] == es[j]);
                } else {
                    assert(r.0[i] == es[i]);
                }
            }
            assert forall|i: int| 0 <= i < r.0.len() implies 1 <= (#[trigger] r.0[i]).line_number
                <= lines.len() by {
                if i < r.0.len() - 1 {
                    assert(r.0[i] == es[i]);
                }
            }
        }
    }
}

/// The entry line `n` (0-based) of `lines` gives: the entry its format reads, numbered
/// `n + 1`, or the unparsed entry for it.
pub open spec fn entry_of_line(
    lines: Seq<Seq<char>>,
    n: int,
    format: LogFormat,
    name: Seq<char>,
    years: Seq<i32>,
) -> EntryV {
    match line_outcome(lines[n], format, name, years[n]) {
        Some(e) => EntryV { line_number: (n + 1) as usize, ..e },
        None => unparsed(lines[n], n + 1),
    }
}

/// Reading a text: each entry comes from a non-empty line and is what that line
/// gives, numbered by the line: the entry its format reads, or, when no parser reads
/// the line, an unknown-level entry whose message and raw line are the line.
pub proof fn lemma_parse_lines_entries(
    lines: Seq<Seq<char>>,
    format: LogFormat,
    name: Seq<char>,
    years: Seq<i32>,
)
    requires
        years.len() == lines.len(),
    ensures
        forall|i: int|
            0 <= i < spec_parse_lines(lines, format, name, years).0.len() ==> exists|n: int|
                0 <= n < lines.len() && lines[n].len() > 0 && (#[trigger] spec_parse_lines(
                    lines,
                    format,
                    name,
                    years,
                ).0[i]) == entry_of_line(lines, n, format, name, years),
    decreases lines.len(),
{
    if lines.len() > 0 {
        let k = lines.len() - 1;
        let pl = lines.drop_last();
        let py = years.take(k);
        lemma_parse_lines_entries(pl, format, name, py);
        let es = spec_parse_lines(pl, format, name, py).0;
        let r = spec_parse_lines(lines, format, name, years).0;
        assert forall|i: int| 0 <= i < r.len() implies exists|n: int|
            0 <= n < lines.len() && lines[n].len() > 0 && (#[trigger] r[i]) == entry_of_line(
                lines,
                n,
                format,
                name,
                years,
            ) by {
            if i < es.len() {
                assert(r[i] == es[i]);
                let n = choose|n: int|
                    0 <= n < pl.len() && pl[n].len() > 0 && (#[trigger] es[i]) == entry_of_line(
                        pl,
                        n,
                        format,
                        name,
                        py,
                    );
                assert(pl[n] == lines[n] && py[n] == years[n]);
                assert(entry_of_line(pl, n, format, name, py) == entry_of_line(lines, n, format, name, years));
            } else {
                assert(lines.last() == lines[k]);
                assert(r[i] == entry_of_line(lines, k, format, name, years));
            }
        }
    }
}

/// The number of non-empty lines that no parser reads.
pub open spec fn unread_lines(
    lines: Seq<Seq<char>>,
    format: LogFormat,
    name: Seq<char>,
    years: Seq<i32>,
) -> nat
    decreases lines.len(),
{
    if lines.len() == 0 {
        0
    } else {
        let n = lines.len() - 1;
        unread_lines(lines.drop_last(), format, name, years.take(n)) + if lines.last().len() > 0
            && line_outcome(lines.last(), format, name, years[n]) is None {
            1nat
        } else {
            0nat
        }
    }
}

/// Reading a text counts as unparsed exactly the non-empty lines that no parser reads.
pub proof fn lemma_parse_lines_unread(
    lines: Seq<Seq<char>>,
    format: LogFormat,
    name: Seq<char>,
    years: Seq<i32>,
)
    ensures
        spec_parse_lines(lines, format, name, years).1 == unread_lines(lines, format, name, years),
    decreases lines.len(),
{
    if lines.len() > 0 {
        let n = lines.len() - 1;
        lemma_parse_lines_unread(lines.drop_last(), format, name, years.take(n));
    }
}

} // verus!
