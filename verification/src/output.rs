//! Text renderings of entries and statistics (the printing itself is done by the
//! caller).
use vstd::prelude::*;
use crate::models::{level_name, opt_view, CountMap, EntryV, LogEntry};
use crate::order::{is_ranking, rank_by_count};
use crate::text::{chars_of, eq_str, lower_chars, push_lit, spec_to_lowercase, string_of};
use crate::time::{spec_rfc3339, to_rfc3339};

verus! {

/// Output format type.
#[derive(Debug, Clone, Copy, PartialEq, Eq, Structural)]
pub enum OutputFormat {
    Summary,
    Text,
    Json,
    Yaml,
    Jsonl,
    Csv,
    Tsv,
    Table,
}

/// The output format a (lower-cased) name selects; an unknown name selects the
/// summary.
pub open spec fn output_of_lower(s: Seq<char>) -> OutputFormat {
    if s == "summary"@ {
        OutputFormat::Summary
    } else if s == "text"@ {
        OutputFormat::Text
    } else if s == "json"@ {
        OutputFormat::Json
    } else if s == "yaml"@ {
        OutputFormat::Yaml
    } else if s == "jsonl"@ {
        OutputFormat::Jsonl
    } else if s == "csv"@ {
        OutputFormat::Csv
    } else if s == "tsv"@ {
        OutputFormat::Tsv
    } else if s == "table"@ {
        OutputFormat::Table
    } else {
        OutputFormat::Summary
    }
}

impl OutputFormat {
    /// The output format a name selects, ignoring case.
    pub fn from_str(s: &str) -> (r: OutputFormat)
        ensures
            r == output_of_lower(spec_to_lowercase(s@)),
    {
        let l = lower_chars(s);
        if eq_str(&l, "summary") {
            OutputFormat::Summary
        } else if eq_str(&l, "text") {
            OutputFormat::Text
        } else if eq_str(&l, "json") {
            OutputFormat::Json
        } else if eq_str(&l, "yaml") {
            OutputFormat::Yaml
        } else if eq_str(&l, "jsonl") {
            OutputFormat::Jsonl
        } else if eq_str(&l, "csv") {
            OutputFormat::Csv
        } else if eq_str(&l, "tsv") {
            OutputFormat::Tsv
        } else if eq_str(&l, "table") {
            OutputFormat::Table
        } else {
            OutputFormat::Summary
        }
    }
}

/// `s` with every `"` doubled.
pub open spec fn double_quotes(s: Seq<char>) -> Seq<char>
    decreases s.len(),
{
    if s.len() == 0 {
        Seq::empty()
    } else {
        double_quotes(s.drop_last()) + if s.last() == '"' {
            seq!['"', '"']
        } else {
            seq![s.last()]
        }
    }
}

/// A field quoted (with its quotes doubled) when it holds `sep`, `"` or a newline.
pub open spec fn spec_escape(s: Seq<char>, sep: char) -> Seq<char> {
    if s.contains(sep) || s.contains('"') || s.contains('\n') {
        seq!['"'] + double_quotes(s) + seq!['"']
    } else {
        s
    }
}

fn escape_with(s: &str, sep: char) -> (r: String)
    ensures
        r@ == spec_escape(s@, sep),
{
    let c = chars_of(s);
    let mut needs = false;
    let mut i: usize = 0;
    while i < c.len()
        invariant
            i <= c.len(),
            needs == exists|j: int| 0 <= j < i && (c@[j] == sep || c@[j] == '"' || c@[j] == '\n'),
        decreases c.len() - i,
    {
        if c[i] == sep || c[i] == '"' || c[i] == '\n' {
            needs = true;
        }
        i = i + 1;
    }
    proof {
        if needs {
            let j = choose|j: int| 0 <= j < c.len() && (c@[j] == sep || c@[j] == '"' || c@[j] == '\n');
            assert(c@[j] == c@[j]);
            if c@[j] == sep {
                assert(s@.contains(sep));
            } else if c@[j] == '"' {
                assert(s@.contains('"'));
            } else {
                assert(s@.contains('\n'));
            }
        } else {
            assert(!s@.contains(sep));
            assert(!s@.contains('"'));
            assert(!s@.contains('\n'));
        }
    }
    if !needs {
        return s.to_string();
    }
    let mut out: Vec<char> = Vec::new();
    out.push('"');
    let mut k: usize = 0;
    while k < c.len()
        invariant
            k <= c.len(),
            out@ == seq!['"'] + double_quotes(c@.take(k as int)),
        decreases c.len() - k,
    {
        proof {
            assert(c@.take(k + 1).drop_last() =~= c@.take(k as int));
        }
        let ghost before = out@;
        if c[k] == '"' {
            out.push('"');
            out.push('"');
        } else {
            out.push(c[k]);
        }
        assert(out@ =~= seq!['"'] + double_quotes(c@.take(k + 1)));
        k = k + 1;
    }
    out.push('"');
    assert(c@.take(c.len() as int) =~= c@);
    string_of(&out)
}

/// Escape a CSV field.
pub fn csv_escape(s: &str) -> (r: String)
    ensures
        r@ == spec_escape(s@, ','),
{
    escape_with(s, ',')
}

/// Escape a TSV field.
pub fn tsv_escape(s: &str) -> (r: String)
    ensures
        r@ == spec_escape(s@, '\t'),
{
    escape_with(s, '\t')
}

/// The timestamp of an entry in RFC 3339, or "".
pub open spec fn ts_field(e: EntryV) -> Seq<char> {
    match e.timestamp {
        Some(t) => spec_rfc3339(t.secs, t.nanos),
        None => Seq::empty(),
    }
}

/// The source of an entry, or "".
pub open spec fn source_field(e: EntryV) -> Seq<char> {
    match e.source {
        Some(s) => s,
        None => Seq::empty(),
    }
}

/// The one-line text form of an entry: the timestamp, `[LEVEL]` (unless the level
/// name is empty or `???`), `(source)` and the message, separated by spaces.
pub open spec fn spec_entry_text(e: EntryV) -> Seq<char> {
    let parts0: Seq<Seq<char>> = match e.timestamp {
        Some(t) => seq![spec_rfc3339(t.secs, t.nanos)],
        None => Seq::empty(),
    };
    let l = level_name(e.level);
    let parts1 = if l.len() > 0 && l != "???"@ {
        parts0.push("["@ + l + "]"@)
    } else {
        parts0
    };
    let parts2 = match e.source {
        Some(s) => parts1.push("("@ + s + ")"@),
        None => parts1,
    };
    join_space(parts2.push(e.message))
}

/// Pieces joined with single spaces.
pub open spec fn join_space(p: Seq<Seq<char>>) -> Seq<char>
    decreases p.len(),
{
    if p.len() == 0 {
        Seq::empty()
    } else if p.len() == 1 {
        p[0]
    } else {
        join_space(p.drop_last()) + " "@ + p.last()
    }
}

fn join_parts(p: &Vec<Vec<char>>) -> (r: String)
    ensures
        r@ == join_space(crate::text::vv(p@)),
{
    let ghost pv = crate::text::vv(p@);
    let mut out: Vec<char> = Vec::new();
    let mut i: usize = 0;
    assert(pv.take(0) =~= Seq::<Seq<char>>::empty());
    while i < p.len()
        invariant
            i <= p.len(),
            pv == crate::text::vv(p@),
            out@ == join_space(pv.take(i as int)),
        decreases p.len() - i,
    {
        proof {
            reveal_strlit(" ");
            assert(pv.take(i + 1).drop_last() =~= pv.take(i as int));
            assert(pv.take(i + 1).last() == p@[i as int]@);
        }
        if i > 0 {
            out.push(' ');
        }
        let ghost before = out@;
        crate::text::push_range(&mut out, &p[i], 0, p[i].len());
        proof {
            assert(p@[i as int]@.subrange(0, p@[i as int]@.len() as int) =~= p@[i as int]@);
            if i == 0 {
                assert(out@ =~= join_space(pv.take(1)));
            } else {
                assert(out@ =~= join_space(pv.take(i as int)) + " "@ + p@[i as int]@);
            }
        }
        i = i + 1;
    }
    assert(pv.take(p.len() as int) =~= pv);
    string_of(&out)
}

/// The one-line text form of an entry (see [`spec_entry_text`]).
pub fn entry_text(entry: &LogEntry) -> (r: String)
    ensures
        r@ == spec_entry_text(entry@),
{
    let mut parts: Vec<Vec<char>> = Vec::new();
    match entry.timestamp {
        Some(t) => {
            parts.push(chars_of(to_rfc3339(t).as_str()));
        },
        None => {},
    }
    let ghost p0 = crate::text::vv(parts@);
    let l = chars_of(entry.level.as_str());
    if l.len() > 0 && !eq_str(&l, "???") {
        let mut b: Vec<char> = Vec::new();
        push_lit(&mut b, "[");
        crate::text::push_range(&mut b, &l, 0, l.len());
        push_lit(&mut b, "]");
        assert(l@.subrange(0, l@.len() as int) =~= l@);
        parts.push(b);
    }
    let ghost p1 = crate::text::vv(parts@);
    match &entry.source {
        Some(s) => {
            let mut b: Vec<char> = Vec::new();
            push_lit(&mut b, "(");
            push_lit(&mut b, s.as_str());
            push_lit(&mut b, ")");
            parts.push(b);
        },
        None => {},
    }
    parts.push(chars_of(entry.message.as_str()));
    proof {
        let e = entry@;
        let q0: Seq<Seq<char>> = match e.timestamp {
            Some(t) => seq![spec_rfc3339(t.secs, t.nanos)],
            None => Seq::empty(),
        };
        assert(p0 =~= q0);
    }
    assert(crate::text::vv(parts@) =~= {
        let e = entry@;
        let parts0: Seq<Seq<char>> = match e.timestamp {
            Some(t) => seq![spec_rfc3339(t.secs, t.nanos)],
            None => Seq::empty(),
        };
        let lv = level_name(e.level);
        let parts1 = if lv.len() > 0 && lv != "???"@ {
            parts0.push("["@ + lv + "]"@)
        } else {
            parts0
        };
        let parts2 = match e.source {
            Some(s) => parts1.push("("@ + s + ")"@),
            None => parts1,
        };
        parts2.push(e.message)
    });
    join_parts(&parts)
}

/// The four fields of an entry joined by `sep`, each escaped for it.
pub open spec fn spec_delimited(e: EntryV, sep: char) -> Seq<char> {
    spec_escape(ts_field(e), sep) + seq![sep] + spec_escape(level_name(e.level), sep) + seq![sep]
        + spec_escape(source_field(e), sep) + seq![sep] + spec_escape(e.message, sep)
}

fn delimited(entry: &LogEntry, sep: char) -> (r: String)
    ensures
        r@ == spec_delimited(entry@, sep),
{
    let ts = match entry.timestamp {
        Some(t) => to_rfc3339(t),
        None => String::new(),
    };
    let src = match &entry.source {
        Some(s) => s.clone(),
        None => String::new(),
    };
    let mut out: Vec<char> = Vec::new();
    push_lit(&mut out, escape_with(ts.as_str(), sep).as_str());
    out.push(sep);
    push_lit(&mut out, escape_with(entry.level.as_str(), sep).as_str());
    out.push(sep);
    push_lit(&mut out, escape_with(src.as_str(), sep).as_str());
    out.push(sep);
    push_lit(&mut out, escape_with(entry.message.as_str(), sep).as_str());
    assert(out@ =~= spec_delimited(entry@, sep));
    string_of(&out)
}

/// A CSV row: timestamp, level, source and message.
pub fn csv_line(entry: &LogEntry) -> (r: String)
    ensures
        r@ == spec_delimited(entry@, ','),
{
    delimited(entry, ',')
}

/// A TSV row: timestamp, level, source and message.
pub fn tsv_line(entry: &LogEntry) -> (r: String)
    ensures
        r@ == spec_delimited(entry@, '\t'),
{
    delimited(entry, '\t')
}

/// The four fields of an entry for a table row, unescaped.
pub open spec fn spec_table_row(e: EntryV) -> Seq<char> {
    ts_field(e) + seq!['\t'] + level_name(e.level) + seq!['\t'] + source_field(e) + seq!['\t']
        + e.message
}

/// A table row: timestamp, level, source and message separated by tabs.
pub fn table_row(entry: &LogEntry) -> (r: String)
    ensures
        r@ == spec_table_row(entry@),
{
    let mut out: Vec<char> = Vec::new();
    match entry.timestamp {
        Some(t) => push_lit(&mut out, to_rfc3339(t).as_str()),
        None => {},
    }
    out.push('\t');
    push_lit(&mut out, entry.level.as_str());
    out.push('\t');
    match &entry.source {
        Some(s) => push_lit(&mut out, s.as_str()),
        None => {},
    }
    out.push('\t');
    push_lit(&mut out, entry.message.as_str());
    assert(out@ =~= spec_table_row(entry@));
    string_of(&out)
}

pub open spec fn count_keys(m: Seq<(Seq<char>, nat)>) -> Seq<usize> {
    m.map_values(|p: (Seq<char>, nat)| p.1 as usize)
}

/// The counts of a [`CountMap`] by descending count (equal counts in order of first
/// appearance).
pub fn ranked(m: &CountMap) -> (r: Vec<(String, usize)>)
    ensures
        exists|rank: Seq<usize>|
            #![trigger is_ranking(count_keys(m.view_counts()), rank)]
            is_ranking(count_keys(m.view_counts()), rank) && crate::models::counts_view(r@)
                == rank.map_values(|i: usize| m.view_counts()[i as int]),
{
    let ghost mv = m.view_counts();
    let mut keys: Vec<usize> = Vec::new();
    let mut j: usize = 0;
    while j < m.pairs.len()
        invariant
            j <= m.pairs.len(),
            mv == m.view_counts(),
            keys@ == count_keys(mv).take(j as int),
        decreases m.pairs.len() - j,
    {
        keys.push(m.pairs[j].1);
        assert(keys@ =~= count_keys(mv).take(j + 1));
        j = j + 1;
    }
    assert(keys@ =~= count_keys(mv));
    let rank = rank_by_count(&keys);
    let mut out: Vec<(String, usize)> = Vec::new();
    let mut k: usize = 0;
    while k < rank.len()
        invariant
            k <= rank.len(),
            mv == m.view_counts(),
            is_ranking(count_keys(mv), rank@),
            crate::models::counts_view(out@) == rank@.take(k as int).map_values(
                |i: usize| mv[i as int],
            ),
        decreases rank.len() - k,
    {
        assert(rank@[k as int] < mv.len());
        let p = (m.pairs[rank[k]].0.clone(), m.pairs[rank[k]].1);
        let ghost before = out@;
        out.push(p);
        proof {
            assert(crate::models::counts_view(out@) =~= crate::models::counts_view(before).push(
                mv[rank@[k as int] as int],
            ));
            assert(rank@.take(k + 1) =~= rank@.take(k as int).push(rank@[k as int]));
            assert(rank@.take(k + 1).map_values(|i: usize| mv[i as int]) =~= rank@.take(
                k as int,
            ).map_values(|i: usize| mv[i as int]).push(mv[rank@[k as int] as int]));
        }
        k = k + 1;
    }
    assert(rank@.take(rank.len() as int) =~= rank@);
    out
}

} // verus!
