//! Choosing a format for a text, and keeping the entries a command asks for.
use vstd::prelude::*;
use crate::filter::{conds_view, spec_matches, Filter};
use crate::models::{level_ge, EntryV, LogEntry, LogLevel};
use crate::parser::{entries_view, LogFormat};
use crate::pattern::{regex_is_match, spec_regex_is_match};
use crate::text::{chars_of, contains_seq, starts_with, trim_start, trim_start_chars};

verus! {

/// The format a sample of a text looks like: JSON when it starts (after whitespace)
/// with `{`, logfmt when it holds a `=`, syslog when it starts with `<`, else plain.
pub open spec fn spec_detect_format(sample: Seq<char>) -> LogFormat {
    let t = trim_start(sample);
    if t.len() > 0 && t[0] == '{' {
        LogFormat::Json
    } else if t.contains('=') {
        LogFormat::Logfmt
    } else if t.len() > 0 && t[0] == '<' {
        LogFormat::Syslog
    } else {
        LogFormat::Plain
    }
}

/// Detect the log format of a text (see [`spec_detect_format`]). (A text holding `=`
/// always has a line holding it.)
pub fn detect_format_from_str(sample: &str) -> (r: LogFormat)
    ensures
        r == spec_detect_format(sample@),
{
    let t = trim_start_chars(&chars_of(sample));
    if t.len() > 0 && t[0] == '{' {
        return LogFormat::Json;
    }
    let mut i: usize = 0;
    while i < t.len()
        invariant
            i <= t.len(),
            t@ == trim_start(sample@),
            !(t.len() > 0 && t@[0] == '{'),
            forall|j: int| 0 <= j < i ==> t@[j] != '=',
        decreases t.len() - i,
    {
        if t[i] == '=' {
            assert(t@.contains('='));
            return LogFormat::Logfmt;
        }
        i = i + 1;
    }
    assert(!t@.contains('='));
    if t.len() > 0 && t[0] == '<' {
        LogFormat::Syslog
    } else {
        LogFormat::Plain
    }
}

/// The entries for which `keep` holds, in order.
pub open spec fn kept(es: Seq<EntryV>, keep: Seq<bool>) -> Seq<EntryV>
    decreases es.len(),
{
    if es.len() == 0 || keep.len() != es.len() {
        Seq::empty()
    } else {
        let rest = kept(es.drop_last(), keep.drop_last());
        if keep.last() {
            rest.push(es.last())
        } else {
            rest
        }
    }
}

/// Keeps the entries marked `true`.
fn keep_marked(entries: Vec<LogEntry>, keep: &Vec<bool>) -> (r: Vec<LogEntry>)
    requires
        keep.len() == entries.len(),
    ensures
        entries_view(r@) == kept(entries_view(entries@), keep@),
{
    let ghost es = entries_view(entries@);
    let mut out: Vec<LogEntry> = Vec::new();
    let mut i: usize = 0;
    assert(es.take(0) =~= Seq::<EntryV>::empty());
    while i < entries.len()
        invariant
            i <= entries.len(),
            keep.len() == entries.len(),
            es == entries_view(entries@),
            entries_view(out@) == kept(es.take(i as int), keep@.take(i as int)),
        decreases entries.len() - i,
    {
        proof {
            assert(es.take(i + 1).drop_last() =~= es.take(i as int));
            assert(keep@.take(i + 1).drop_last() =~= keep@.take(i as int));
        }
        if keep[i] {
            let e = entries[i].copy();
            let ghost before = out@;
            out.push(e);
            assert(entries_view(out@) =~= entries_view(before).push(e@));
        }
        i = i + 1;
    }
    assert(es.take(entries.len() as int) =~= es);
    assert(keep@.take(entries.len() as int) =~= keep@);
    out
}

/// The marks of the entries at or above a level.
pub open spec fn level_marks(es: Seq<EntryV>, min: LogLevel) -> Seq<bool> {
    es.map_values(|e: EntryV| level_ge(e.level, min@))
}

/// Keep the entries at or above `min` (in the order of levels, see
/// [`crate::models::level_ge`]).
pub fn retain_min_level(entries: Vec<LogEntry>, min: &LogLevel) -> (r: Vec<LogEntry>)
    ensures
        entries_view(r@) == kept(entries_view(entries@), level_marks(entries_view(entries@), *min)),
{
    let ghost es = entries_view(entries@);
    let mut marks: Vec<bool> = Vec::new();
    let mut i: usize = 0;
    while i < entries.len()
        invariant
            i <= entries.len(),
            es == entries_view(entries@),
            marks@ == level_marks(es, *min).take(i as int),
        decreases entries.len() - i,
    {
        marks.push(entries[i].level.at_least(min));
        assert(marks@ =~= level_marks(es, *min).take(i + 1));
        i = i + 1;
    }
    assert(marks@ =~= level_marks(es, *min));
    keep_marked(entries, &marks)
}

/// The marks of the entries whose source contains `src`.
pub open spec fn source_marks(es: Seq<EntryV>, src: Seq<char>) -> Seq<bool> {
    es.map_values(
        |e: EntryV|
            match e.source {
                Some(s) => contains_seq(s, src),
                None => false,
            },
    )
}

/// Keep the entries whose source contains `src`.
pub fn retain_source(entries: Vec<LogEntry>, src: &str) -> (r: Vec<LogEntry>)
    ensures
        entries_view(r@) == kept(entries_view(entries@), source_marks(entries_view(entries@), src@)),
{
    let ghost es = entries_view(entries@);
    let sc = chars_of(src);
    let mut marks: Vec<bool> = Vec::new();
    let mut i: usize = 0;
    while i < entries.len()
        invariant
            i <= entries.len(),
            es == entries_view(entries@),
            sc@ == src@,
            marks@ == source_marks(es, src@).take(i as int),
        decreases entries.len() - i,
    {
        let m = match &entries[i].source {
            Some(s) => crate::text::contains(&chars_of(s.as_str()), &sc),
            None => false,
        };
        marks.push(m);
        assert(marks@ =~= source_marks(es, src@).take(i + 1));
        i = i + 1;
    }
    assert(marks@ =~= source_marks(es, src@));
    keep_marked(entries, &marks)
}

/// The marks of the entries whose message the pattern matches.
pub open spec fn grep_marks(es: Seq<EntryV>, pattern: Seq<char>) -> Seq<bool> {
    es.map_values(|e: EntryV| spec_regex_is_match(pattern, e.message) == Some(true))
}

/// Keep the entries whose message the regular expression matches.
pub fn retain_grep(entries: Vec<LogEntry>, pattern: &str) -> (r: Vec<LogEntry>)
    ensures
        entries_view(r@) == kept(entries_view(entries@), grep_marks(entries_view(entries@), pattern@)),
{
    let ghost es = entries_view(entries@);
    let mut marks: Vec<bool> = Vec::new();
    let mut i: usize = 0;
    while i < entries.len()
        invariant
            i <= entries.len(),
            es == entries_view(entries@),
            marks@ == grep_marks(es, pattern@).take(i as int),
        decreases entries.len() - i,
    {
        let m = match regex_is_match(pattern, entries[i].message.as_str()) {
            Some(b) => b,
            None => false,
        };
        marks.push(m);
        assert(marks@ =~= grep_marks(es, pattern@).take(i + 1));
        i = i + 1;
    }
    assert(marks@ =~= grep_marks(es, pattern@));
    keep_marked(entries, &marks)
}

/// The marks of the entries that pass a filter, given the outcomes of the numeric
/// comparisons of its conditions for each entry.
pub open spec fn filter_marks(es: Seq<EntryV>, f: Filter, numeric: Seq<Seq<bool>>) -> Seq<bool> {
    Seq::new(es.len(), |i: int| spec_matches(conds_view(f.conditions@), f.logic@, es[i], numeric[i]))
}

/// Keep the entries that pass a filter; `numeric[i][j]` is the outcome of the
/// floating-point comparison of condition `j` for entry `i`.
pub fn retain_filter(entries: Vec<LogEntry>, f: &Filter, numeric: &Vec<Vec<bool>>) -> (r: Vec<LogEntry>)
    requires
        numeric.len() == entries.len(),
        forall|i: int| 0 <= i < numeric.len() ==> #[trigger] numeric@[i].len() == f.conditions.len(),
    ensures
        entries_view(r@) == kept(
            entries_view(entries@),
            filter_marks(entries_view(entries@), *f, numeric@.map_values(|v: Vec<bool>| v@)),
        ),
{
    let ghost es = entries_view(entries@);
    let ghost nv = numeric@.map_values(|v: Vec<bool>| v@);
    let mut marks: Vec<bool> = Vec::new();
    let mut i: usize = 0;
    while i < entries.len()
        invariant
            i <= entries.len(),
            es == entries_view(entries@),
            nv == numeric@.map_values(|v: Vec<bool>| v@),
            numeric.len() == entries.len(),
            forall|k: int| 0 <= k < numeric.len() ==> #[trigger] numeric@[k].len() == f.conditions.len(),
            marks@ == filter_marks(es, *f, nv).take(i as int),
        decreases entries.len() - i,
    {
        let m = f.matches(&entries[i], &numeric[i]);
        marks.push(m);
        assert(marks@ =~= filter_marks(es, *f, nv).take(i + 1));
        i = i + 1;
    }
    assert(marks@ =~= filter_marks(es, *f, nv));
    keep_marked(entries, &marks)
}

} // verus!
