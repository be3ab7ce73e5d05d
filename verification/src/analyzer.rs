//! Log analysis: statistics, error clusters and error-rate anomalies.
use vstd::prelude::*;
use crate::models::{
    bump, counts_view, level_name, lemma_tally_lookup, lemma_two_counts, lookup, msg_template,
    occ, opt_view, tally, timestamp_le, ts_le, CountMap, EntryV, ErrorCluster, LevelV,
    LogEntry, Timestamp,
};
use crate::order::{is_ranking, lemma_ranking_is_permutation, rank_by_count};
use crate::parser::entries_view;
use crate::text::{chars_of, sv, string_of};
use crate::time::{spec_rfc3339, to_rfc3339};

verus! {

// ---------------------------------------------------------------------------
// Statistics
// ---------------------------------------------------------------------------

/// Aggregated statistics for a set of log entries.
#[derive(Debug, Clone)]
pub struct LogStats {
    pub total_lines: usize,
    pub parsed_lines: usize,
    pub parse_errors: usize,
    pub level_counts: CountMap,
    pub source_counts: CountMap,
    pub template_counts: CountMap,
    pub field_keys: CountMap,
    /// The earliest and the latest timestamp, in RFC 3339.
    pub time_range: Option<(String, String)>,
    /// Entries at level ERROR or FATAL; the error rate is this count per total line.
    pub error_count: usize,
}

/// The level names of the entries.
pub open spec fn level_names(es: Seq<EntryV>) -> Seq<Seq<char>> {
    es.map_values(|e: EntryV| level_name(e.level))
}

/// The sources of the entries that have one.
pub open spec fn sources(es: Seq<EntryV>) -> Seq<Seq<char>>
    decreases es.len(),
{
    if es.len() == 0 {
        Seq::empty()
    } else {
        match es.last().source {
            Some(s) => sources(es.drop_last()).push(s),
            None => sources(es.drop_last()),
        }
    }
}

/// The message templates of the entries.
pub open spec fn templates(es: Seq<EntryV>) -> Seq<Seq<char>> {
    es.map_values(|e: EntryV| msg_template(e.message))
}

/// The field keys of all entries, entry after entry.
pub open spec fn field_key_list(es: Seq<EntryV>) -> Seq<Seq<char>>
    decreases es.len(),
{
    if es.len() == 0 {
        Seq::empty()
    } else {
        field_key_list(es.drop_last()) + es.last().fields.map_values(
            |p: (Seq<char>, Seq<char>)| p.0,
        )
    }
}

/// The timestamps of the entries that have one.
pub open spec fn timestamps(es: Seq<EntryV>) -> Seq<Timestamp>
    decreases es.len(),
{
    if es.len() == 0 {
        Seq::empty()
    } else {
        match es.last().timestamp {
            Some(t) => timestamps(es.drop_last()).push(t),
            None => timestamps(es.drop_last()),
        }
    }
}

/// The earliest of a non-empty sequence of instants.
pub open spec fn earliest(ts: Seq<Timestamp>) -> Timestamp
    decreases ts.len(),
{
    if ts.len() <= 1 {
        ts[0]
    } else {
        let m = earliest(ts.drop_last());
        if ts_le(m, ts.last()) {
            m
        } else {
            ts.last()
        }
    }
}

/// The latest of a non-empty sequence of instants.
pub open spec fn latest(ts: Seq<Timestamp>) -> Timestamp
    decreases ts.len(),
{
    if ts.len() <= 1 {
        ts[0]
    } else {
        let m = latest(ts.drop_last());
        if ts_le(ts.last(), m) {
            m
        } else {
            ts.last()
        }
    }
}

/// The time range of the entries, in RFC 3339.
pub open spec fn time_range_of(es: Seq<EntryV>) -> Option<(Seq<char>, Seq<char>)> {
    let ts = timestamps(es);
    if ts.len() == 0 {
        None
    } else {
        Some(
            (
                spec_rfc3339(earliest(ts).secs, earliest(ts).nanos),
                spec_rfc3339(latest(ts).secs, latest(ts).nanos),
            ),
        )
    }
}

pub open spec fn range_view(r: Option<(String, String)>) -> Option<(Seq<char>, Seq<char>)> {
    match r {
        Some((a, b)) => Some((a@, b@)),
        None => None,
    }
}

/// The earliest instant is no later than any, and is one of them.
pub proof fn lemma_earliest(ts: Seq<Timestamp>)
    requires
        ts.len() > 0,
    ensures
        ts.contains(earliest(ts)),
        forall|i: int| 0 <= i < ts.len() ==> ts_le(earliest(ts), #[trigger] ts[i]),
    decreases ts.len(),
{
    if ts.len() > 1 {
        lemma_earliest(ts.drop_last());
        let m = earliest(ts.drop_last());
        assert(ts.drop_last().contains(m));
        let j = choose|j: int| 0 <= j < ts.drop_last().len() && ts.drop_last()[j] == m;
        assert(ts[j] == m);
        assert forall|i: int| 0 <= i < ts.len() implies ts_le(earliest(ts), #[trigger] ts[i]) by {
            if i < ts.len() - 1 {
                assert(ts[i] == ts.drop_last()[i]);
            }
        }
        if !ts_le(m, ts.last()) {
            assert(ts[ts.len() - 1] == ts.last());
        }
    } else {
        assert(ts[0] == earliest(ts));
    }
}

/// The latest instant is no earlier than any, and is one of them.
pub proof fn lemma_latest(ts: Seq<Timestamp>)
    requires
        ts.len() > 0,
    ensures
        ts.contains(latest(ts)),
        forall|i: int| 0 <= i < ts.len() ==> ts_le(#[trigger] ts[i], latest(ts)),
    decreases ts.len(),
{
    if ts.len() > 1 {
        lemma_latest(ts.drop_last());
        let m = latest(ts.drop_last());
        assert(ts.drop_last().contains(m));
        let j = choose|j: int| 0 <= j < ts.drop_last().len() && ts.drop_last()[j] == m;
        assert(ts[j] == m);
        assert forall|i: int| 0 <= i < ts.len() implies ts_le(#[trigger] ts[i], latest(ts)) by {
            if i < ts.len() - 1 {
                assert(ts[i] == ts.drop_last()[i]);
            }
        }
        if !ts_le(ts.last(), m) {
            assert(ts[ts.len() - 1] == ts.last());
        }
    } else {
        assert(ts[0] == latest(ts));
    }
}

proof fn lemma_occ_bound(ks: Seq<Seq<char>>, k: Seq<char>)
    ensures
        occ(ks, k) <= ks.len(),
    decreases ks.len(),
{
    if ks.len() > 0 {
        lemma_occ_bound(ks.drop_last(), k);
    }
}

/// Counting keys with a [`CountMap`]: `m` holds the tally of `done`, and every key of
/// `more` is counted after them.
fn count_all(m: &mut CountMap, more: &Vec<String>, Ghost(done): Ghost<Seq<Seq<char>>>)
    requires
        old(m).view_counts() == tally(done),
        done.len() + more.len() <= usize::MAX,
    ensures
        final(m).view_counts() == tally(done + sv(more@)),
{
    let mut i: usize = 0;
    let ghost ms = sv(more@);
    assert(done + ms.take(0) =~= done);
    while i < more.len()
        invariant
            i <= more.len(),
            ms == sv(more@),
            done.len() + more.len() <= usize::MAX,
            m.view_counts() == tally(done + ms.take(i as int)),
        decreases more.len() - i,
    {
        let ghost ks = done + ms.take(i as int);
        proof {
            lemma_tally_lookup(ks, more@[i as int]@);
            lemma_occ_bound(ks, more@[i as int]@);
            assert((done + ms.take(i + 1)).drop_last() =~= ks);
            assert((done + ms.take(i + 1)).last() == more@[i as int]@);
        }
        m.bump(more[i].clone());
        i = i + 1;
    }
    assert(ms.take(more.len() as int) =~= ms);
}

/// Analyze a collection of log entries and produce statistics.
pub fn analyze(entries: &Vec<LogEntry>, parse_errors: usize) -> (r: LogStats)
    requires
        entries.len() + parse_errors <= usize::MAX,
        field_key_list(entries_view(entries@)).len() <= usize::MAX,
    ensures
        ({
            let es = entries_view(entries@);
            &&& r.total_lines == entries.len() + parse_errors
            &&& r.parsed_lines == entries.len()
            &&& r.parse_errors == parse_errors
            &&& r.level_counts.view_counts() == tally(level_names(es))
            &&& r.source_counts.view_counts() == tally(sources(es))
            &&& r.template_counts.view_counts() == tally(templates(es))
            &&& r.field_keys.view_counts() == tally(field_key_list(es))
            &&& range_view(r.time_range) == time_range_of(es)
            &&& r.error_count == occ(level_names(es), "ERROR"@) + occ(level_names(es), "FATAL"@)
        }),
{
    let ghost es = entries_view(entries@);
    let mut level_counts = CountMap::new();
    let mut source_counts = CountMap::new();
    let mut template_counts = CountMap::new();
    let mut field_keys = CountMap::new();
    let mut first: Option<Timestamp> = None;
    let mut last: Option<Timestamp> = None;
    let mut i: usize = 0;
    proof {
        assert(es.take(0) =~= Seq::<EntryV>::empty());
        assert(level_names(es.take(0)) =~= Seq::<Seq<char>>::empty());
        assert(templates(es.take(0)) =~= Seq::<Seq<char>>::empty());
    }
    while i < entries.len()
        invariant
            i <= entries.len(),
            es == entries_view(entries@),
            entries.len() + parse_errors <= usize::MAX,
            field_key_list(es).len() <= usize::MAX,
            level_counts.view_counts() == tally(level_names(es.take(i as int))),
            source_counts.view_counts() == tally(sources(es.take(i as int))),
            template_counts.view_counts() == tally(templates(es.take(i as int))),
            field_keys.view_counts() == tally(field_key_list(es.take(i as int))),
            timestamps(es.take(i as int)).len() == 0 ==> first is None && last is None,
            timestamps(es.take(i as int)).len() > 0 ==> first == Some(
                earliest(timestamps(es.take(i as int))),
            ) && last == Some(latest(timestamps(es.take(i as int)))),
        decreases entries.len() - i,
    {
        let e = &entries[i];
        let ghost pre = es.take(i as int);
        let ghost cur = es.take(i + 1);
        proof {
            assert(cur.drop_last() =~= pre);
            assert(cur.last() == e@);
            assert(level_names(cur) =~= level_names(pre).push(level_name(e@.level)));
            assert(templates(cur) =~= templates(pre).push(msg_template(e@.message)));
            lemma_prefix_field_keys(es, i as int);
        }
        let mut one: Vec<String> = Vec::new();
        one.push(e.level.as_str().to_string());
        proof {
            assert(level_names(pre) + sv(one@) =~= level_names(cur));
            lemma_occ_bound(level_names(pre), level_name(e@.level));
        }
        count_all(&mut level_counts, &one, Ghost(level_names(pre)));
        let mut srcs: Vec<String> = Vec::new();
        match &e.source {
            Some(s) => {
                srcs.push(s.clone());
            },
            None => {},
        }
        proof {
            assert(sources(pre) + sv(srcs@) =~= sources(cur));
            lemma_sources_len(pre);
        }
        count_all(&mut source_counts, &srcs, Ghost(sources(pre)));
        let mut tpl: Vec<String> = Vec::new();
        tpl.push(e.message_template());
        proof {
            assert(templates(pre) + sv(tpl@) =~= templates(cur));
        }
        count_all(&mut template_counts, &tpl, Ghost(templates(pre)));
        let mut keys: Vec<String> = Vec::new();
        let mut j: usize = 0;
        while j < e.fields.pairs.len()
            invariant
                j <= e.fields.pairs.len(),
                sv(keys@) == e@.fields.map_values(|p: (Seq<char>, Seq<char>)| p.0).take(j as int),
            decreases e.fields.pairs.len() - j,
        {
            let ghost before = keys@;
            keys.push(e.fields.pairs[j].0.clone());
            proof {
                assert(sv(keys@) =~= sv(before).push(e.fields.pairs@[j as int].0@));
                assert(e@.fields.map_values(|p: (Seq<char>, Seq<char>)| p.0).take(j + 1)
                    =~= e@.fields.map_values(|p: (Seq<char>, Seq<char>)| p.0).take(j as int).push(
                    e.fields.pairs@[j as int].0@,
                ));
            }
            j = j + 1;
        }
        proof {
            assert(e@.fields.map_values(|p: (Seq<char>, Seq<char>)| p.0).take(
                e.fields.pairs.len() as int,
            ) =~= e@.fields.map_values(|p: (Seq<char>, Seq<char>)| p.0));
            assert(field_key_list(pre) + sv(keys@) =~= field_key_list(cur));
        }
        count_all(&mut field_keys, &keys, Ghost(field_key_list(pre)));
        match e.timestamp {
            Some(t) => {
                match first {
                    Some(f) => {
                        if !timestamp_le(f, t) {
                            first = Some(t);
                        }
                    },
                    None => {
                        first = Some(t);
                    },
                }
                match last {
                    Some(l) => {
                        if !timestamp_le(t, l) {
                            last = Some(t);
                        }
                    },
                    None => {
                        last = Some(t);
                    },
                }
                proof {
                    assert(timestamps(cur) == timestamps(pre).push(t));
                    assert(timestamps(cur).drop_last() =~= timestamps(pre));
                }
            },
            None => {
                assert(timestamps(cur) == timestamps(pre));
            },
        }
        i = i + 1;
    }
    proof {
        assert(es.take(entries.len() as int) =~= es);
        lemma_tally_lookup(level_names(es), "ERROR"@);
        lemma_tally_lookup(level_names(es), "FATAL"@);
        reveal_strlit("ERROR");
        reveal_strlit("FATAL");
        assert("ERROR"@[0] != "FATAL"@[0]);
        lemma_two_counts(level_names(es), "ERROR"@, "FATAL"@);
        assert(level_names(es).len() == entries.len());
    }
    let errs = match level_counts.get("ERROR") {
        Some(c) => c,
        None => 0,
    };
    let fatal = match level_counts.get("FATAL") {
        Some(c) => c,
        None => 0,
    };
    let time_range = match (first, last) {
        (Some(f), Some(l)) => Some((to_rfc3339(f), to_rfc3339(l))),
        _ => None,
    };
    LogStats {
        total_lines: entries.len() + parse_errors,
        parsed_lines: entries.len(),
        parse_errors,
        level_counts,
        source_counts,
        template_counts,
        field_keys,
        time_range,
        error_count: errs + fatal,
    }
}

proof fn lemma_sources_len(es: Seq<EntryV>)
    ensures
        sources(es).len() <= es.len(),
    decreases es.len(),
{
    if es.len() > 0 {
        lemma_sources_len(es.drop_last());
    }
}

proof fn lemma_field_keys_prefix_len(es: Seq<EntryV>, i: int)
    requires
        0 <= i <= es.len(),
    ensures
        field_key_list(es.take(i)).len() <= field_key_list(es).len(),
    decreases es.len() - i,
{
    if i < es.len() {
        lemma_field_keys_prefix_len(es, i + 1);
        assert(es.take(i + 1).drop_last() =~= es.take(i));
    } else {
        assert(es.take(i) =~= es);
    }
}

proof fn lemma_prefix_field_keys(es: Seq<EntryV>, i: int)
    requires
        0 <= i < es.len(),
    ensures
        field_key_list(es.take(i + 1)).len() <= field_key_list(es).len(),
        field_key_list(es.take(i + 1)) == field_key_list(es.take(i)) + es[i].fields.map_values(
            |p: (Seq<char>, Seq<char>)| p.0,
        ),
{
    lemma_field_keys_prefix_len(es, i + 1);
    assert(es.take(i + 1).drop_last() =~= es.take(i));
}

// ---------------------------------------------------------------------------
// Error clusters
// ---------------------------------------------------------------------------

/// The mathematical value of an [`ErrorCluster`].
pub struct ClusterV {
    pub template: Seq<char>,
    pub count: nat,
    pub first_seen: Option<Seq<char>>,
    pub last_seen: Option<Seq<char>>,
    pub samples: Seq<Seq<char>>,
    pub sources: Seq<Seq<char>>,
}

pub open spec fn cluster_view(c: ErrorCluster) -> ClusterV {
    ClusterV {
        template: c.template@,
        count: c.count as nat,
        first_seen: opt_view(c.first_seen),
        last_seen: opt_view(c.last_seen),
        samples: sv(c.sample_messages@),
        sources: sv(c.sources@),
    }
}

pub open spec fn clusters_view(v: Seq<ErrorCluster>) -> Seq<ClusterV> {
    v.map_values(|c: ErrorCluster| cluster_view(c))
}

/// Warnings, errors and fatal entries are clustered.
pub open spec fn is_clustered(l: LevelV) -> bool {
    l is Error || l is Fatal || l is Warn
}

/// An instant in RFC 3339.
pub open spec fn ts_text(t: Option<Timestamp>) -> Option<Seq<char>> {
    match t {
        Some(t) => Some(spec_rfc3339(t.secs, t.nanos)),
        None => None,
    }
}

/// Position of the first cluster with template `t`, scanning from `i`.
pub open spec fn cluster_pos(cs: Seq<ClusterV>, t: Seq<char>, i: int) -> Option<int>
    decreases cs.len() - i,
{
    if i < 0 || i >= cs.len() {
        None
    } else if cs[i].template == t {
        Some(i)
    } else {
        cluster_pos(cs, t, i + 1)
    }
}

/// A new cluster for template `t`, opened by entry `e`.
pub open spec fn fresh_cluster(t: Seq<char>, e: EntryV) -> ClusterV {
    ClusterV {
        template: t,
        count: 0,
        first_seen: ts_text(e.timestamp),
        last_seen: None,
        samples: Seq::empty(),
        sources: Seq::empty(),
    }
}

/// Adding entry `e` to a cluster: one more, the last seen instant, the first seen
/// one if there was none, the message while there are fewer than 3 samples, and a
/// source not yet listed.
pub open spec fn absorb(c: ClusterV, e: EntryV) -> ClusterV {
    ClusterV {
        template: c.template,
        count: c.count + 1,
        first_seen: if e.timestamp is Some && c.first_seen is None {
            ts_text(e.timestamp)
        } else {
            c.first_seen
        },
        last_seen: if e.timestamp is Some {
            ts_text(e.timestamp)
        } else {
            c.last_seen
        },
        samples: if c.samples.len() < 3 {
            c.samples.push(e.message)
        } else {
            c.samples
        },
        sources: match e.source {
            Some(s) => if c.sources.contains(s) {
                c.sources
            } else {
                c.sources.push(s)
            },
            None => c.sources,
        },
    }
}

/// Clustering one more entry.
pub open spec fn cluster_step(cs: Seq<ClusterV>, e: EntryV) -> Seq<ClusterV> {
    if !is_clustered(e.level) {
        cs
    } else {
        let t = msg_template(e.message);
        match cluster_pos(cs, t, 0) {
            Some(i) => cs.update(i, absorb(cs[i], e)),
            None => cs.push(absorb(fresh_cluster(t, e), e)),
        }
    }
}

/// The clusters of the entries, in order of first appearance of their templates.
pub open spec fn cluster_fold(es: Seq<EntryV>) -> Seq<ClusterV>
    decreases es.len(),
{
    if es.len() == 0 {
        Seq::empty()
    } else {
        cluster_step(cluster_fold(es.drop_last()), es.last())
    }
}

pub open spec fn cluster_counts(cs: Seq<ClusterV>) -> Seq<usize> {
    cs.map_values(|c: ClusterV| c.count as usize)
}

fn copy_cluster(c: &ErrorCluster) -> (r: ErrorCluster)
    ensures
        cluster_view(r) == cluster_view(*c),
{
    ErrorCluster {
        template: c.template.clone(),
        count: c.count,
        first_seen: crate::models::copy_opt(&c.first_seen),
        last_seen: crate::models::copy_opt(&c.last_seen),
        sample_messages: crate::compress::copy_strings(&c.sample_messages),
        sources: crate::compress::copy_strings(&c.sources),
    }
}

fn find_cluster(cs: &Vec<ErrorCluster>, t: &Vec<char>) -> (r: Option<usize>)
    ensures
        match r {
            Some(i) => cluster_pos(clusters_view(cs@), t@, 0) == Some(i as int) && i < cs.len(),
            None => cluster_pos(clusters_view(cs@), t@, 0) == None::<int>,
        },
{
    let ghost p = clusters_view(cs@);
    let mut i: usize = 0;
    while i < cs.len()
        invariant
            p == clusters_view(cs@),
            i <= cs.len(),
            cluster_pos(p, t@, 0) == cluster_pos(p, t@, i as int),
        decreases cs.len() - i,
    {
        let c = chars_of(cs[i].template.as_str());
        assert(p[i as int].template == c@);
        if crate::text::chars_eq(&c, t) {
            return Some(i);
        }
        i = i + 1;
    }
    None
}

fn contains_string(v: &Vec<String>, s: &String) -> (r: bool)
    ensures
        r == sv(v@).contains(s@),
{
    let sc = chars_of(s.as_str());
    let mut i: usize = 0;
    while i < v.len()
        invariant
            i <= v.len(),
            sc@ == s@,
            forall|j: int| 0 <= j < i ==> sv(v@)[j] != s@,
        decreases v.len() - i,
    {
        let c = chars_of(v[i].as_str());
        if crate::text::chars_eq(&c, &sc) {
            assert(sv(v@)[i as int] == s@);
            return true;
        }
        i = i + 1;
    }
    false
}

fn absorb_entry(c: &mut ErrorCluster, e: &LogEntry)
    requires
        old(c).count < usize::MAX,
    ensures
        cluster_view(*final(c)) == absorb(cluster_view(*old(c)), e@),
{
    c.count = c.count + 1;
    match e.timestamp {
        Some(t) => {
            c.last_seen = Some(to_rfc3339(t));
            if c.first_seen.is_none() {
                c.first_seen = Some(to_rfc3339(t));
            }
        },
        None => {},
    }
    if c.sample_messages.len() < 3 {
        let ghost before = c.sample_messages@;
        c.sample_messages.push(e.message.clone());
        assert(sv(c.sample_messages@) =~= sv(before).push(e.message@));
    }
    match &e.source {
        Some(s) => {
            if !contains_string(&c.sources, s) {
                let ghost before = c.sources@;
                c.sources.push(s.clone());
                assert(sv(c.sources@) =~= sv(before).push(s@));
            }
        },
        None => {},
    }
}

/// Cluster error/warning messages by template: one cluster per message template of
/// the WARN, ERROR and FATAL entries, ordered by descending count (clusters with
/// equal counts in order of first appearance).
pub fn cluster_errors(entries: &Vec<LogEntry>) -> (r: Vec<ErrorCluster>)
    ensures
        exists|rank: Seq<usize>|
            #![trigger is_ranking(cluster_counts(cluster_fold(entries_view(entries@))), rank)]
            is_ranking(cluster_counts(cluster_fold(entries_view(entries@))), rank) && clusters_view(
                r@,
            ) == rank.map_values(|i: usize| cluster_fold(entries_view(entries@))[i as int]),
        cluster_total(clusters_view(r@)) == clustered_count(entries_view(entries@)),
        forall|i: int| 0 <= i < r.len() ==> cluster_shape(#[trigger] clusters_view(r@)[i]),
        forall|a: int, b: int|
            0 <= a < b < r.len() ==> (#[trigger] clusters_view(r@)[a]).template != (
            #[trigger] clusters_view(r@)[b]).template,
{
    let ghost es = entries_view(entries@);
    let mut clusters: Vec<ErrorCluster> = Vec::new();
    let mut i: usize = 0;
    assert(es.take(0) =~= Seq::<EntryV>::empty());
    assert(clusters_view(clusters@) =~= Seq::<ClusterV>::empty());
    while i < entries.len()
        invariant
            i <= entries.len(),
            es == entries_view(entries@),
            clusters_view(clusters@) == cluster_fold(es.take(i as int)),
            forall|j: int| 0 <= j < clusters.len() ==> #[trigger] clusters@[j].count <= i,
        decreases entries.len() - i,
    {
        let e = &entries[i];
        let ghost pre = clusters_view(clusters@);
        proof {
            assert(es.take(i + 1).drop_last() =~= es.take(i as int));
            assert(es.take(i + 1).last() == e@);
        }
        let level_ok = match e.level {
            crate::models::LogLevel::Error | crate::models::LogLevel::Fatal
            | crate::models::LogLevel::Warn => true,
            _ => false,
        };
        if level_ok {
            let t = e.message_template();
            let tc = chars_of(t.as_str());
            match find_cluster(&clusters, &tc) {
                Some(k) => {
                    let mut c = copy_cluster(&clusters[k]);
                    absorb_entry(&mut c, e);
                    let ghost cv = cluster_view(c);
                    clusters.set(k, c);
                    assert(clusters_view(clusters@) =~= pre.update(k as int, cv));
                },
                None => {
                    let first_seen = match e.timestamp {
                        Some(ts) => Some(to_rfc3339(ts)),
                        None => None,
                    };
                    let mut c = ErrorCluster {
                        template: t,
                        count: 0,
                        first_seen,
                        last_seen: None,
                        sample_messages: Vec::new(),
                        sources: Vec::new(),
                    };
                    assert(sv(c.sample_messages@) =~= Seq::<Seq<char>>::empty());
                    assert(sv(c.sources@) =~= Seq::<Seq<char>>::empty());
                    assert(cluster_view(c) == fresh_cluster(tc@, e@));
                    absorb_entry(&mut c, e);
                    let ghost cv = cluster_view(c);
                    clusters.push(c);
                    assert(clusters_view(clusters@) =~= pre.push(cv));
                },
            }
        }
        i = i + 1;
    }
    assert(es.take(entries.len() as int) =~= es);
    let ghost cs = clusters_view(clusters@);
    let mut keys: Vec<usize> = Vec::new();
    let mut j: usize = 0;
    while j < clusters.len()
        invariant
            j <= clusters.len(),
            cs == clusters_view(clusters@),
            keys@ == cluster_counts(cs).take(j as int),
        decreases clusters.len() - j,
    {
        keys.push(clusters[j].count);
        assert(keys@ =~= cluster_counts(cs).take(j + 1));
        j = j + 1;
    }
    assert(keys@ =~= cluster_counts(cs));
    let rank = rank_by_count(&keys);
    let mut out: Vec<ErrorCluster> = Vec::new();
    let mut k: usize = 0;
    while k < rank.len()
        invariant
            k <= rank.len(),
            cs == clusters_view(clusters@),
            is_ranking(cluster_counts(cs), rank@),
            clusters_view(out@) == rank@.take(k as int).map_values(|i: usize| cs[i as int]),
        decreases rank.len() - k,
    {
        assert(rank@[k as int] < cs.len());
        let c = copy_cluster(&clusters[rank[k]]);
        let ghost before = out@;
        out.push(c);
        proof {
            assert(cluster_view(c) == cs[rank@[k as int] as int]);
            assert(clusters_view(out@) =~= clusters_view(before).push(cluster_view(c)));
            assert(rank@.take(k + 1) =~= rank@.take(k as int).push(rank@[k as int]));
            assert(rank@.take(k + 1).map_values(|i: usize| cs[i as int]) =~= rank@.take(
                k as int,
            ).map_values(|i: usize| cs[i as int]).push(cs[rank@[k as int] as int]));
        }
        k = k + 1;
    }
    assert(rank@.take(rank.len() as int) =~= rank@);
    proof {
        assert(cs == cluster_fold(es));
        lemma_ranked_clusters(es, rank@);
    }
    out
}

// ---------------------------------------------------------------------------
// Anomalies
// ---------------------------------------------------------------------------

/// A time bucket with markedly more errors than the average bucket.
#[derive(Debug, Clone)]
pub struct AnomalyReport {
    /// Start of the bucket, in RFC 3339.
    pub timestamp: String,
    pub total_entries: usize,
    pub error_count: usize,
    /// "critical" above five times the average, else "warning"; the error rate of the
    /// bucket is `error_count` per `total_entries`.
    pub severity: String,
}

/// The mathematical value of an [`AnomalyReport`].
pub struct AnomalyV {
    pub timestamp: Seq<char>,
    pub total_entries: nat,
    pub error_count: nat,
    pub severity: Seq<char>,
}

pub open spec fn anomaly_view(a: AnomalyReport) -> AnomalyV {
    AnomalyV {
        timestamp: a.timestamp@,
        total_entries: a.total_entries as nat,
        error_count: a.error_count as nat,
        severity: a.severity@,
    }
}

pub open spec fn anomalies_view(v: Seq<AnomalyReport>) -> Seq<AnomalyV> {
    v.map_values(|a: AnomalyReport| anomaly_view(a))
}

/// The start of the bucket of width `w` seconds that holds second `secs`: the quotient
/// is truncated toward zero, as `i64` division does.
pub open spec fn bucket_of(secs: int, w: int) -> int {
    if secs >= 0 {
        (secs / w) * w
    } else {
        -(((-secs) / w) * w)
    }
}

/// An error-grade entry (ERROR or FATAL).
pub open spec fn is_error_level(l: LevelV) -> bool {
    l is Error || l is Fatal
}

/// A bucket: its start, its entries and its errors.
pub type BucketV = (int, nat, nat);

pub open spec fn bucket_pos(bs: Seq<BucketV>, b: int, i: int) -> Option<int>
    decreases bs.len() - i,
{
    if i < 0 || i >= bs.len() {
        None
    } else if bs[i].0 == b {
        Some(i)
    } else {
        bucket_pos(bs, b, i + 1)
    }
}

proof fn lemma_bucket_pos(bs: Seq<BucketV>, b: int, i: int)
    requires
        0 <= i,
    ensures
        match bucket_pos(bs, b, i) {
            Some(j) => i <= j < bs.len() && bs[j].0 == b,
            None => true,
        },
    decreases bs.len() - i,
{
    if i < bs.len() && bs[i].0 != b {
        lemma_bucket_pos(bs, b, i + 1);
    }
}

/// Counting one more entry in its bucket.
pub open spec fn bucket_step(bs: Seq<BucketV>, e: EntryV, w: int) -> Seq<BucketV> {
    match e.timestamp {
        None => bs,
        Some(t) => {
            let b = bucket_of(t.secs as int, w);
            let err: nat = if is_error_level(e.level) { 1 } else { 0 };
            match bucket_pos(bs, b, 0) {
                Some(i) => bs.update(i, (b, bs[i].1 + 1, bs[i].2 + err)),
                None => bs.push((b, 1nat, err)),
            }
        },
    }
}

/// The buckets of the timestamped entries, in order of first appearance.
pub open spec fn bucket_fold(es: Seq<EntryV>, w: int) -> Seq<BucketV>
    decreases es.len(),
{
    if es.len() == 0 {
        Seq::empty()
    } else {
        bucket_step(bucket_fold(es.drop_last(), w), es.last(), w)
    }
}

/// The number of timestamped error-grade entries (the errors of all buckets).
pub open spec fn timed_errors(es: Seq<EntryV>) -> nat
    decreases es.len(),
{
    if es.len() == 0 {
        0
    } else {
        timed_errors(es.drop_last()) + if es.last().timestamp is Some && is_error_level(
            es.last().level,
        ) {
            1nat
        } else {
            0nat
        }
    }
}

/// The anomalies among buckets, in bucket order: at least 3 errors and more than twice
/// the average errors per bucket (`errors * buckets > 2 * all errors`); critical
/// above five times the average.
pub open spec fn anomaly_list(bs: Seq<BucketV>, n: nat, all: nat) -> Seq<AnomalyV>
    decreases bs.len(),
{
    if bs.len() == 0 {
        Seq::empty()
    } else {
        let rest = anomaly_list(bs.drop_last(), n, all);
        let (b, total, errors) = bs.last();
        if errors * n > 2 * all && errors >= 3 {
            rest.push(
                AnomalyV {
                    timestamp: spec_rfc3339(b as i64, 0),
                    total_entries: total,
                    error_count: errors,
                    severity: if errors * n > 5 * all {
                        "critical"@
                    } else {
                        "warning"@
                    },
                },
            )
        } else {
            rest
        }
    }
}

/// The anomalies of the entries with buckets of `minutes` minutes, in bucket order.
pub open spec fn spec_anomalies(es: Seq<EntryV>, minutes: int) -> Seq<AnomalyV> {
    let bs = bucket_fold(es, minutes * 60);
    anomaly_list(bs, bs.len(), timed_errors(es))
}

pub open spec fn anomaly_counts(v: Seq<AnomalyV>) -> Seq<usize> {
    v.map_values(|a: AnomalyV| a.error_count as usize)
}

fn find_bucket(keys: &Vec<i64>, b: i64, Ghost(bs): Ghost<Seq<BucketV>>) -> (r: Option<usize>)
    requires
        bs.len() == keys.len(),
        forall|j: int| 0 <= j < keys.len() ==> bs[j].0 == keys@[j] as int,
    ensures
        match r {
            Some(i) => bucket_pos(bs, b as int, 0) == Some(i as int) && i < keys.len(),
            None => bucket_pos(bs, b as int, 0) == None::<int>,
        },
{
    let mut i: usize = 0;
    while i < keys.len()
        invariant
            i <= keys.len(),
            bs.len() == keys.len(),
            forall|j: int| 0 <= j < keys.len() ==> bs[j].0 == keys@[j] as int,
            bucket_pos(bs, b as int, 0) == bucket_pos(bs, b as int, i as int),
        decreases keys.len() - i,
    {
        if keys[i] == b {
            return Some(i);
        }
        i = i + 1;
    }
    None
}

fn bucket_start(secs: i64, w: i64) -> (r: i64)
    requires
        w > 0,
    ensures
        r as int == bucket_of(secs as int, w as int),
{
    let a: i128 = secs as i128;
    let wi: i128 = w as i128;
    if a >= 0 {
        let d = a / wi;
        assert(d * wi <= a && d * wi >= 0) by (nonlinear_arith)
            requires
                a >= 0,
                wi > 0,
                d == a / wi,
        ;
        let q = d * wi;
        q as i64
    } else {
        let na = -a;
        let d = na / wi;
        assert(d * wi <= na && d * wi >= 0) by (nonlinear_arith)
            requires
                na > 0,
                wi > 0,
                d == na / wi,
        ;
        let q = -(d * wi);
        q as i64
    }
}

/// Detect rate anomalies: time buckets of `bucket_minutes` minutes with markedly more
/// errors than the average bucket (see [`spec_anomalies`]), by descending error count
/// (equal counts in bucket order).
pub fn detect_anomalies(entries: &Vec<LogEntry>, bucket_minutes: u64) -> (r: Vec<AnomalyReport>)
    requires
        1 <= bucket_minutes,
        bucket_minutes * 60 <= i64::MAX,
    ensures
        exists|rank: Seq<usize>|
            #![trigger is_ranking(anomaly_counts(spec_anomalies(entries_view(entries@), bucket_minutes as int)), rank)]
            is_ranking(
                anomaly_counts(spec_anomalies(entries_view(entries@), bucket_minutes as int)),
                rank,
            ) && anomalies_view(r@) == rank.map_values(
                |i: usize| spec_anomalies(entries_view(entries@), bucket_minutes as int)[i as int],
            ),
{
    let ghost es = entries_view(entries@);
    let w: i64 = (bucket_minutes * 60) as i64;
    let mut keys: Vec<i64> = Vec::new();
    let mut totals: Vec<usize> = Vec::new();
    let mut errs: Vec<usize> = Vec::new();
    let mut all_errors: usize = 0;
    let ghost mut bs: Seq<BucketV> = Seq::empty();
    let mut i: usize = 0;
    assert(es.take(0) =~= Seq::<EntryV>::empty());
    while i < entries.len()
        invariant
            i <= entries.len(),
            es == entries_view(entries@),
            w as int == bucket_minutes * 60,
            w > 0,
            bs == bucket_fold(es.take(i as int), w as int),
            all_errors == timed_errors(es.take(i as int)),
            all_errors <= i,
            bs.len() == keys.len(),
            bs.len() == totals.len(),
            bs.len() == errs.len(),
            forall|j: int|
                0 <= j < bs.len() ==> #[trigger] bs[j] == (
                    keys@[j] as int,
                    totals@[j] as nat,
                    errs@[j] as nat,
                ),
            forall|j: int| 0 <= j < bs.len() ==> #[trigger] totals@[j] <= i && errs@[j] <= i,
        decreases entries.len() - i,
    {
        let e = &entries[i];
        proof {
            assert(es.take(i + 1).drop_last() =~= es.take(i as int));
            assert(es.take(i + 1).last() == e@);
        }
        match e.timestamp {
            Some(t) => {
                let b = bucket_start(t.secs, w);
                let err: usize = if e.level.is_error() { 1 } else { 0 };
                all_errors = all_errors + err;
                match find_bucket(&keys, b, Ghost(bs)) {
                    Some(k) => {
                        let nt = totals[k] + 1;
                        let ne = errs[k] + err;
                        let ghost t0 = totals@;
                        let ghost e0 = errs@;
                        let ghost b0 = bs;
                        proof {
                            lemma_bucket_pos(bs, b as int, 0);
                        }
                        totals.set(k, nt);
                        errs.set(k, ne);
                        proof {
                            bs = bs.update(k as int, (b as int, nt as nat, ne as nat));
                            assert forall|j: int| 0 <= j < bs.len() implies #[trigger] bs[j] == (
                                keys@[j] as int,
                                totals@[j] as nat,
                                errs@[j] as nat,
                            ) by {
                                if j != k {
                                    assert(b0[j] == bs[j]);
                                    assert(t0[j] == totals@[j]);
                                    assert(e0[j] == errs@[j]);
                                }
                            }
                            assert forall|j: int| 0 <= j < bs.len() implies #[trigger] totals@[j]
                                <= i + 1 && errs@[j] <= i + 1 by {
                                if j != k {
                                    assert(t0[j] == totals@[j]);
                                    assert(e0[j] == errs@[j]);
                                }
                            }
                        }
                    },
                    None => {
                        let ghost t0 = totals@;
                        let ghost e0 = errs@;
                        let ghost k0 = keys@;
                        let ghost b0 = bs;
                        keys.push(b);
                        totals.push(1);
                        errs.push(err);
                        proof {
                            bs = bs.push((b as int, 1nat, err as nat));
                            assert forall|j: int| 0 <= j < bs.len() implies #[trigger] bs[j] == (
                                keys@[j] as int,
                                totals@[j] as nat,
                                errs@[j] as nat,
                            ) by {
                                if j < b0.len() {
                                    assert(b0[j] == bs[j]);
                                    assert(t0[j] == totals@[j]);
                                    assert(e0[j] == errs@[j]);
                                    assert(k0[j] == keys@[j]);
                                }
                            }
                            assert forall|j: int| 0 <= j < bs.len() implies #[trigger] totals@[j]
                                <= i + 1 && errs@[j] <= i + 1 by {
                                if j < b0.len() {
                                    assert(t0[j] == totals@[j]);
                                    assert(e0[j] == errs@[j]);
                                }
                            }
                        }
                    },
                }
            },
            None => {},
        }
        i = i + 1;
    }
    assert(es.take(entries.len() as int) =~= es);
    let n = keys.len();
    let ghost spec_list = spec_anomalies(es, bucket_minutes as int);
    let mut found: Vec<AnomalyReport> = Vec::new();
    let mut j: usize = 0;
    assert(bs.take(0) =~= Seq::<BucketV>::empty());
    while j < n
        invariant
            j <= n,
            n == bs.len(),
            bs.len() == keys.len(),
            bs.len() == totals.len(),
            bs.len() == errs.len(),
            forall|m: int|
                0 <= m < bs.len() ==> #[trigger] bs[m] == (
                    keys@[m] as int,
                    totals@[m] as nat,
                    errs@[m] as nat,
                ),
            anomalies_view(found@) == anomaly_list(bs.take(j as int), n as nat, all_errors as nat),
        decreases n - j,
    {
        proof {
            assert(bs.take(j + 1).drop_last() =~= bs.take(j as int));
            assert(bs.take(j + 1).last() == bs[j as int]);
        }
        let e128 = errs[j] as u128;
        let n128 = n as u128;
        let a128 = all_errors as u128;
        assert(e128 * n128 <= 0xffff_ffff_ffff_ffff_ffff_ffff_ffff_ffff) by (nonlinear_arith)
            requires
                e128 <= 0xffff_ffff_ffff_ffff,
                n128 <= 0xffff_ffff_ffff_ffff,
        ;
        if e128 * n128 > 2 * a128 && errs[j] >= 3 {
            let severity = if e128 * n128 > 5 * a128 {
                "critical".to_string()
            } else {
                "warning".to_string()
            };
            let rep = AnomalyReport {
                timestamp: to_rfc3339(Timestamp { secs: keys[j], nanos: 0 }),
                total_entries: totals[j],
                error_count: errs[j],
                severity,
            };
            let ghost before = found@;
            found.push(rep);
            assert(anomalies_view(found@) =~= anomalies_view(before).push(anomaly_view(rep)));
        }
        j = j + 1;
    }
    assert(bs.take(n as int) =~= bs);
    let mut counts: Vec<usize> = Vec::new();
    let mut k: usize = 0;
    while k < found.len()
        invariant
            k <= found.len(),
            counts@ == anomaly_counts(anomalies_view(found@)).take(k as int),
        decreases found.len() - k,
    {
        counts.push(found[k].error_count);
        assert(counts@ =~= anomaly_counts(anomalies_view(found@)).take(k + 1));
        k = k + 1;
    }
    assert(counts@ =~= anomaly_counts(anomalies_view(found@)));
    let rank = rank_by_count(&counts);
    let ghost fv = anomalies_view(found@);
    let mut out: Vec<AnomalyReport> = Vec::new();
    let mut m: usize = 0;
    while m < rank.len()
        invariant
            m <= rank.len(),
            fv == anomalies_view(found@),
            is_ranking(anomaly_counts(fv), rank@),
            anomalies_view(out@) == rank@.take(m as int).map_values(|i: usize| fv[i as int]),
        decreases rank.len() - m,
    {
        assert(rank@[m as int] < fv.len());
        let a = &found[rank[m]];
        let c = AnomalyReport {
            timestamp: a.timestamp.clone(),
            total_entries: a.total_entries,
            error_count: a.error_count,
            severity: a.severity.clone(),
        };
        let ghost before = out@;
        out.push(c);
        proof {
            assert(anomaly_view(c) == fv[rank@[m as int] as int]);
            assert(anomalies_view(out@) =~= anomalies_view(before).push(anomaly_view(c)));
            assert(rank@.take(m + 1) =~= rank@.take(m as int).push(rank@[m as int]));
            assert(rank@.take(m + 1).map_values(|i: usize| fv[i as int]) =~= rank@.take(
                m as int,
            ).map_values(|i: usize| fv[i as int]).push(fv[rank@[m as int] as int]));
        }
        m = m + 1;
    }
    assert(rank@.take(rank.len() as int) =~= rank@);
    out
}

// ---------------------------------------------------------------------------
// Laws
// ---------------------------------------------------------------------------

/// The number of clustered (WARN, ERROR or FATAL) entries.
pub open spec fn clustered_count(es: Seq<EntryV>) -> nat
    decreases es.len(),
{
    if es.len() == 0 {
        0
    } else {
        clustered_count(es.drop_last()) + if is_clustered(es.last().level) {
            1nat
        } else {
            0nat
        }
    }
}

/// The sum of the cluster counts.
pub open spec fn cluster_total(cs: Seq<ClusterV>) -> nat
    decreases cs.len(),
{
    if cs.len() == 0 {
        0
    } else {
        cluster_total(cs.drop_last()) + cs.last().count
    }
}

proof fn lemma_cluster_total_update(cs: Seq<ClusterV>, i: int, c: ClusterV)
    requires
        0 <= i < cs.len(),
    ensures
        cluster_total(cs.update(i, c)) + cs[i].count == cluster_total(cs) + c.count,
    decreases cs.len(),
{
    let u = cs.update(i, c);
    if i == cs.len() - 1 {
        assert(u.drop_last() =~= cs.drop_last());
    } else {
        assert(u.drop_last() =~= cs.drop_last().update(i, c));
        lemma_cluster_total_update(cs.drop_last(), i, c);
    }
}

proof fn lemma_cluster_pos(cs: Seq<ClusterV>, t: Seq<char>, i: int)
    requires
        0 <= i,
    ensures
        match cluster_pos(cs, t, i) {
            Some(j) => i <= j < cs.len(),
            None => true,
        },
    decreases cs.len() - i,
{
    if i < cs.len() && cs[i].template != t {
        lemma_cluster_pos(cs, t, i + 1);
    }
}

/// Clustering: every WARN, ERROR and FATAL entry is counted in exactly one cluster,
/// every cluster counts at least one entry, and keeps the first messages of its
/// entries, at most three.
pub proof fn lemma_clusters(es: Seq<EntryV>)
    ensures
        cluster_total(cluster_fold(es)) == clustered_count(es),
        forall|i: int|
            0 <= i < cluster_fold(es).len() ==> {
                let c = #[trigger] cluster_fold(es)[i];
                &&& c.count >= 1
                &&& c.samples.len() <= 3
                &&& c.samples.len() == if c.count < 3 {
                    c.count
                } else {
                    3
                }
            },
    decreases es.len(),
{
    if es.len() > 0 {
        let pre = cluster_fold(es.drop_last());
        let e = es.last();
        lemma_clusters(es.drop_last());
        if is_clustered(e.level) {
            let t = msg_template(e.message);
            lemma_cluster_pos(pre, t, 0);
            match cluster_pos(pre, t, 0) {
                Some(i) => {
                    lemma_cluster_total_update(pre, i, absorb(pre[i], e));
                    assert forall|k: int| 0 <= k < cluster_fold(es).len() implies {
                        let c = #[trigger] cluster_fold(es)[k];
                        &&& c.count >= 1
                        &&& c.samples.len() <= 3
                        &&& c.samples.len() == if c.count < 3 {
                            c.count
                        } else {
                            3
                        }
                    } by {
                        if k != i {
                            assert(cluster_fold(es)[k] == pre[k]);
                        } else {
                            let c0 = pre[k];
                            assert(c0.count >= 1);
                        }
                    }
                },
                None => {
                    let c = absorb(fresh_cluster(t, e), e);
                    assert(pre.push(c).drop_last() =~= pre);
                    assert forall|k: int| 0 <= k < cluster_fold(es).len() implies {
                        let c = #[trigger] cluster_fold(es)[k];
                        &&& c.count >= 1
                        &&& c.samples.len() <= 3
                        &&& c.samples.len() == if c.count < 3 {
                            c.count
                        } else {
                            3
                        }
                    } by {
                        if k < pre.len() {
                            assert(cluster_fold(es)[k] == pre[k]);
                        }
                    }
                },
            }
        } else {
            assert(cluster_fold(es) == pre);
        }
    }
}

proof fn lemma_cluster_pos_none(cs: Seq<ClusterV>, t: Seq<char>, i: int)
    requires
        0 <= i,
        cluster_pos(cs, t, i) is None,
    ensures
        forall|k: int| i <= k < cs.len() ==> (#[trigger] cs[k]).template != t,
    decreases cs.len() - i,
{
    if i < cs.len() {
        lemma_cluster_pos_none(cs, t, i + 1);
    }
}

/// No value occurs twice in `s`.
pub open spec fn no_repeats(s: Seq<Seq<char>>) -> bool {
    forall|a: int, b: int| 0 <= a < b < s.len() ==> s[a] != s[b]
}

/// Clustering: no two clusters share a template, and no cluster names a source twice.
pub proof fn lemma_cluster_templates_distinct(es: Seq<EntryV>)
    ensures
        forall|a: int, b: int|
            0 <= a < b < cluster_fold(es).len() ==> (#[trigger] cluster_fold(es)[a]).template
                != (#[trigger] cluster_fold(es)[b]).template,
        forall|i: int| 0 <= i < cluster_fold(es).len() ==> no_repeats(#[trigger] cluster_fold(es)[i].sources),
    decreases es.len(),
{
    if es.len() > 0 {
        let pre = cluster_fold(es.drop_last());
        let e = es.last();
        lemma_cluster_templates_distinct(es.drop_last());
        let cs = cluster_fold(es);
        if is_clustered(e.level) {
            let t = msg_template(e.message);
            lemma_cluster_pos(pre, t, 0);
            match cluster_pos(pre, t, 0) {
                Some(i) => {
                    assert(cs == pre.update(i, absorb(pre[i], e)));
                    assert forall|a: int, b: int| 0 <= a < b < cs.len() implies (#[trigger] cs[a]).template
                        != (#[trigger] cs[b]).template by {
                        assert(cs[a].template == pre[a].template);
                        assert(cs[b].template == pre[b].template);
                    }
                    assert forall|k: int| 0 <= k < cs.len() implies no_repeats(#[trigger] cs[k].sources) by {
                        if k == i {
                            let c = pre[i];
                            assert(no_repeats(c.sources));
                            match e.source {
                                Some(src) => {
                                    if !c.sources.contains(src) {
                                        let n = c.sources.push(src);
                                        assert forall|x: int, y: int| 0 <= x < y < n.len() implies n[x] != n[y] by {
                                            if y == n.len() - 1 {
                                                assert(n[x] == c.sources[x]);
                                            }
                                        }
                                    }
                                },
                                None => {},
                            }
                        } else {
                            assert(cs[k] == pre[k]);
                        }
                    }
                },
                None => {
                    lemma_cluster_pos_none(pre, t, 0);
                    let c = absorb(fresh_cluster(t, e), e);
                    assert(cs == pre.push(c));
                    assert forall|a: int, b: int| 0 <= a < b < cs.len() implies (#[trigger] cs[a]).template
                        != (#[trigger] cs[b]).template by {
                        if b == cs.len() - 1 {
                            assert(cs[a] == pre[a]);
                        } else {
                            assert(cs[a] == pre[a] && cs[b] == pre[b]);
                        }
                    }
                    assert forall|k: int| 0 <= k < cs.len() implies no_repeats(#[trigger] cs[k].sources) by {
                        if k < pre.len() {
                            assert(cs[k] == pre[k]);
                        } else {
                            assert(c.sources.len() <= 1);
                        }
                    }
                },
            }
        } else {
            assert(cs == pre);
        }
    }
}

/// The number of entries whose source is `s`.
pub open spec fn source_count(es: Seq<EntryV>, s: Seq<char>) -> nat
    decreases es.len(),
{
    if es.len() == 0 {
        0
    } else {
        source_count(es.drop_last(), s) + if es.last().source == Some(s) {
            1nat
        } else {
            0nat
        }
    }
}

proof fn lemma_source_occ(es: Seq<EntryV>, s: Seq<char>)
    ensures
        occ(sources(es), s) == source_count(es, s),
    decreases es.len(),
{
    if es.len() > 0 {
        lemma_source_occ(es.drop_last(), s);
        match es.last().source {
            Some(x) => {
                assert(sources(es).drop_last() =~= sources(es.drop_last()));
            },
            None => {},
        }
    }
}

/// Statistics: the level counts and the template counts each add up to the number of
/// entries, and the count of a source is the number of entries with that source (a
/// source no entry has gets no count).
pub proof fn lemma_stat_counts(es: Seq<EntryV>, s: Seq<char>)
    ensures
        crate::models::total(tally(level_names(es))) == es.len(),
        crate::models::total(tally(templates(es))) == es.len(),
        lookup(tally(sources(es)), s) == if source_count(es, s) == 0 {
            None
        } else {
            Some(source_count(es, s))
        },
{
    crate::models::lemma_tally_total(level_names(es));
    crate::models::lemma_tally_total(templates(es));
    lemma_tally_lookup(sources(es), s);
    lemma_source_occ(es, s);
}

/// The errors of all buckets together.
pub open spec fn bucket_errors(bs: Seq<BucketV>) -> nat
    decreases bs.len(),
{
    if bs.len() == 0 {
        0
    } else {
        bucket_errors(bs.drop_last()) + bs.last().2
    }
}

proof fn lemma_bucket_errors_update(bs: Seq<BucketV>, i: int, x: BucketV)
    requires
        0 <= i < bs.len(),
    ensures
        bucket_errors(bs.update(i, x)) + bs[i].2 == bucket_errors(bs) + x.2,
    decreases bs.len(),
{
    let u = bs.update(i, x);
    if i == bs.len() - 1 {
        assert(u.drop_last() =~= bs.drop_last());
    } else {
        assert(u.drop_last() =~= bs.drop_last().update(i, x));
        lemma_bucket_errors_update(bs.drop_last(), i, x);
    }
}

proof fn lemma_bucket_fold(es: Seq<EntryV>, w: int)
    ensures
        bucket_errors(bucket_fold(es, w)) == timed_errors(es),
        bucket_fold(es, w).len() == 0 <==> timestamps(es).len() == 0,
    decreases es.len(),
{
    if es.len() > 0 {
        lemma_bucket_fold(es.drop_last(), w);
        let pre = bucket_fold(es.drop_last(), w);
        let e = es.last();
        match e.timestamp {
            None => {},
            Some(t) => {
                let b = bucket_of(t.secs as int, w);
                let err: nat = if is_error_level(e.level) { 1 } else { 0 };
                lemma_bucket_pos(pre, b, 0);
                match bucket_pos(pre, b, 0) {
                    Some(i) => {
                        lemma_bucket_errors_update(pre, i, (b, pre[i].1 + 1, pre[i].2 + err));
                    },
                    None => {
                        assert(pre.push((b, 1nat, err)).drop_last() =~= pre);
                    },
                }
            },
        }
    }
}

proof fn lemma_anomaly_list(bs: Seq<BucketV>, n: nat, all: nat)
    ensures
        forall|k: int|
            0 <= k < anomaly_list(bs, n, all).len() ==> {
                let a = #[trigger] anomaly_list(bs, n, all)[k];
                &&& a.error_count >= 3
                &&& a.error_count * n > 2 * all
                &&& (a.severity == "critical"@ <==> a.error_count * n > 5 * all)
                &&& exists|j: int|
                    0 <= j < bs.len() && (#[trigger] bs[j]).1 == a.total_entries && bs[j].2
                        == a.error_count
            },
    decreases bs.len(),
{
    reveal_strlit("critical");
    reveal_strlit("warning");
    if bs.len() > 0 {
        lemma_anomaly_list(bs.drop_last(), n, all);
        let rest = anomaly_list(bs.drop_last(), n, all);
        let l = anomaly_list(bs, n, all);
        assert forall|k: int| 0 <= k < l.len() implies {
            let a = #[trigger] l[k];
            &&& a.error_count >= 3
            &&& a.error_count * n > 2 * all
            &&& (a.severity == "critical"@ <==> a.error_count * n > 5 * all)
            &&& exists|j: int|
                0 <= j < bs.len() && (#[trigger] bs[j]).1 == a.total_entries && bs[j].2
                    == a.error_count
        } by {
            if k < rest.len() {
                assert(l[k] == rest[k]);
                let j = choose|j: int|
                    0 <= j < bs.drop_last().len() && (#[trigger] bs.drop_last()[j]).1
                        == rest[k].total_entries && bs.drop_last()[j].2 == rest[k].error_count;
                assert(bs[j] == bs.drop_last()[j]);
            } else {
                assert(bs[bs.len() - 1] == bs.last());
                assert("warning"@ != "critical"@) by {
                    assert("warning"@.len() != "critical"@.len());
                }
            }
        }
    }
}

/// The report of a bucket among `n` buckets with `all` errors in all.
pub open spec fn bucket_report(b: BucketV, n: nat, all: nat) -> AnomalyV {
    AnomalyV {
        timestamp: spec_rfc3339(b.0 as i64, 0),
        total_entries: b.1,
        error_count: b.2,
        severity: if b.2 * n > 5 * all {
            "critical"@
        } else {
            "warning"@
        },
    }
}

proof fn lemma_anomaly_list_covers(bs: Seq<BucketV>, n: nat, all: nat)
    ensures
        forall|j: int|
            0 <= j < bs.len() && (#[trigger] bs[j]).2 >= 3 && bs[j].2 * n > 2 * all ==> exists|k: int|
                0 <= k < anomaly_list(bs, n, all).len() && (#[trigger] anomaly_list(bs, n, all)[k])
                    == bucket_report(bs[j], n, all),
    decreases bs.len(),
{
    if bs.len() > 0 {
        let init = bs.drop_last();
        lemma_anomaly_list_covers(init, n, all);
        let rest = anomaly_list(init, n, all);
        let l = anomaly_list(bs, n, all);
        assert forall|j: int| 0 <= j < bs.len() && (#[trigger] bs[j]).2 >= 3 && bs[j].2 * n > 2 * all
            implies exists|k: int| 0 <= k < l.len() && (#[trigger] l[k]) == bucket_report(bs[j], n, all) by {
            if j < init.len() {
                assert(bs[j] == init[j]);
                let k = choose|k: int|
                    0 <= k < rest.len() && (#[trigger] rest[k]) == bucket_report(init[j], n, all);
                assert(l[k] == rest[k]);
            } else {
                assert(bs[j] == bs.last());
                assert(l[rest.len() as int] == bucket_report(bs[j], n, all));
            }
        }
    }
}

/// Anomalies, the other way: every bucket with at least 3 errors and more than twice
/// the average errors per bucket is reported, with its start, entries, errors and
/// severity.
pub proof fn lemma_anomalies_complete(es: Seq<EntryV>, minutes: int)
    ensures
        ({
            let bs = bucket_fold(es, minutes * 60);
            let v = spec_anomalies(es, minutes);
            forall|j: int|
                0 <= j < bs.len() && (#[trigger] bs[j]).2 >= 3 && bs[j].2 * bs.len() > 2
                    * timed_errors(es) ==> exists|k: int|
                    0 <= k < v.len() && (#[trigger] v[k]) == bucket_report(
                        bs[j],
                        bs.len(),
                        timed_errors(es),
                    )
        }),
{
    let bs = bucket_fold(es, minutes * 60);
    let v = spec_anomalies(es, minutes);
    let all = timed_errors(es);
    lemma_anomaly_list_covers(bs, bs.len(), all);
    assert(v == anomaly_list(bs, bs.len(), all));
    assert forall|j: int| 0 <= j < bs.len() && (#[trigger] bs[j]).2 >= 3 && bs[j].2 * bs.len() > 2
        * all implies exists|k: int| 0 <= k < v.len() && (#[trigger] v[k]) == bucket_report(
        bs[j],
        bs.len(),
        all,
    ) by {
        let k = choose|k: int|
            0 <= k < anomaly_list(bs, bs.len(), all).len() && (#[trigger] anomaly_list(
                bs,
                bs.len(),
                all,
            )[k]) == bucket_report(bs[j], bs.len(), all);
        assert(v[k] == bucket_report(bs[j], bs.len(), all));
    }
}

/// Anomalies: every reported bucket has at least 3 errors and more than twice the
/// average errors per bucket (the errors of all buckets are the timestamped errors),
/// is critical exactly above five times the average, and reports that bucket's
/// entries and errors; without timestamped entries there are no buckets and no
/// anomalies.
pub proof fn lemma_anomalies(es: Seq<EntryV>, minutes: int)
    ensures
        ({
            let bs = bucket_fold(es, minutes * 60);
            let v = spec_anomalies(es, minutes);
            &&& bucket_errors(bs) == timed_errors(es)
            &&& (timestamps(es).len() == 0 ==> bs.len() == 0 && v.len() == 0)
            &&& forall|k: int|
                0 <= k < v.len() ==> {
                    let a = #[trigger] v[k];
                    &&& a.error_count >= 3
                    &&& a.error_count * bs.len() > 2 * timed_errors(es)
                    &&& (a.severity == "critical"@ <==> a.error_count * bs.len() > 5
                        * timed_errors(es))
                    &&& exists|j: int|
                        0 <= j < bs.len() && (#[trigger] bs[j]).1 == a.total_entries && bs[j].2
                            == a.error_count
                }
        }),
{
    let bs = bucket_fold(es, minutes * 60);
    lemma_bucket_fold(es, minutes * 60);
    lemma_anomaly_list(bs, bs.len(), timed_errors(es));
}

proof fn lemma_cluster_pos_hit(cs: Seq<ClusterV>, t: Seq<char>, i: int)
    requires
        0 <= i,
    ensures
        cluster_pos(cs, t, i) matches Some(j) ==> 0 <= j < cs.len() && cs[j].template == t,
    decreases cs.len() - i,
{
    if i < cs.len() && cs[i].template != t {
        lemma_cluster_pos_hit(cs, t, i + 1);
    }
}

/// Clustering: the template of every WARN, ERROR or FATAL entry is the template of a
/// cluster, and every cluster's template is the template of such an entry.
#[verifier::rlimit(40)]
pub proof fn lemma_cluster_templates(es: Seq<EntryV>)
    ensures
        forall|j: int|
            0 <= j < es.len() && is_clustered(es[j].level) ==> exists|k: int|
                0 <= k < cluster_fold(es).len() && (#[trigger] cluster_fold(es)[k]).template
                    == msg_template((#[trigger] es[j]).message),
        forall|k: int|
            0 <= k < cluster_fold(es).len() ==> exists|j: int|
                0 <= j < es.len() && is_clustered((#[trigger] es[j]).level) && (#[trigger] cluster_fold(
                    es,
                )[k]).template == msg_template(es[j].message),
    decreases es.len(),
{
    if es.len() > 0 {
        let pre = cluster_fold(es.drop_last());
        let init = es.drop_last();
        let e = es.last();
        lemma_cluster_templates(init);
        let cs = cluster_fold(es);
        let t = msg_template(e.message);
        lemma_cluster_pos_hit(pre, t, 0);
        assert forall|j: int| 0 <= j < init.len() implies es[j] == init[j] by {}
        if !is_clustered(e.level) {
            assert(cs == pre);
            assert forall|j: int| 0 <= j < es.len() && is_clustered(es[j].level) implies exists|k: int|
                0 <= k < cs.len() && (#[trigger] cs[k]).template == msg_template(
                    (#[trigger] es[j]).message,
                ) by {
                assert(j < init.len());
                assert(es[j] == init[j]);
            }
            assert forall|k: int| 0 <= k < cs.len() implies exists|j: int|
                0 <= j < es.len() && is_clustered((#[trigger] es[j]).level) && (#[trigger] cs[k]).template
                    == msg_template(es[j].message) by {
                let j = choose|j: int|
                    0 <= j < init.len() && is_clustered((#[trigger] init[j]).level) && (#[trigger] pre[
                        k
                    ]).template == msg_template(init[j].message);
                assert(es[j] == init[j]);
            }
        } else {
            let hit = cluster_pos(pre, t, 0);
            let n = if hit is Some { pre.len() } else { pre.len() + 1 };
            assert(cs.len() == n);
            assert forall|k: int| 0 <= k < pre.len() implies (#[trigger] cs[k]).template == pre[k].template by {
                match hit {
                    Some(i) => {
                        assert(cs == pre.update(i, absorb(pre[i], e)));
                    },
                    None => {
                        assert(cs == pre.push(absorb(fresh_cluster(t, e), e)));
                    },
                }
            }
            let kt: int = match hit {
                Some(i) => i,
                None => pre.len() as int,
            };
            assert(0 <= kt < cs.len() && cs[kt].template == t) by {
                match hit {
                    Some(i) => {},
                    None => {
                        assert(cs == pre.push(absorb(fresh_cluster(t, e), e)));
                    },
                }
            }
            assert forall|j: int| 0 <= j < es.len() && is_clustered(es[j].level) implies exists|k: int|
                0 <= k < cs.len() && (#[trigger] cs[k]).template == msg_template(
                    (#[trigger] es[j]).message,
                ) by {
                if j < init.len() {
                    assert(es[j] == init[j]);
                    let k = choose|k: int|
                        0 <= k < pre.len() && (#[trigger] pre[k]).template == msg_template(
                            (#[trigger] init[j]).message,
                        );
                    assert(cs[k].template == pre[k].template);
                } else {
                    assert(es[j] == e);
                    assert(cs[kt].template == msg_template(es[j].message));
                }
            }
            assert forall|k: int| 0 <= k < cs.len() implies exists|j: int|
                0 <= j < es.len() && is_clustered((#[trigger] es[j]).level) && (#[trigger] cs[k]).template
                    == msg_template(es[j].message) by {
                if k < pre.len() {
                    let j = choose|j: int|
                        0 <= j < init.len() && is_clustered((#[trigger] init[j]).level) && (#[trigger] pre[
                            k
                        ]).template == msg_template(init[j].message);
                    assert(es[j] == init[j]);
                    assert(cs[k].template == pre[k].template);
                } else {
                    assert(k == kt);
                    assert(es[es.len() - 1] == e);
                    assert(is_clustered(es[es.len() - 1].level) && cs[k].template == msg_template(
                        es[es.len() - 1].message,
                    ));
                }
            }
        }
    }
}

/// A cluster counts at least one entry, keeps the first of its messages (at most
/// three), and names no source twice.
pub open spec fn cluster_shape(c: ClusterV) -> bool {
    &&& c.count >= 1
    &&& c.samples.len() == if c.count < 3 {
        c.count
    } else {
        3
    }
    &&& no_repeats(c.sources)
}

proof fn lemma_total_remove(cs: Seq<ClusterV>, p: int)
    requires
        0 <= p < cs.len(),
    ensures
        cluster_total(cs) == cluster_total(cs.remove(p)) + cs[p].count,
    decreases cs.len(),
{
    if p == cs.len() - 1 {
        assert(cs.remove(p) =~= cs.drop_last());
    } else {
        lemma_total_remove(cs.drop_last(), p);
        assert(cs.remove(p).drop_last() =~= cs.drop_last().remove(p));
        assert(cs.remove(p).last() == cs.last());
    }
}

/// Listing the clusters in another order keeps the sum of their counts.
proof fn lemma_total_permuted(a: Seq<ClusterV>, rank: Seq<usize>)
    requires
        rank.len() == a.len(),
        forall|x: int| 0 <= x < rank.len() ==> rank[x] < a.len(),
        forall|x: int, y: int| 0 <= x < y < rank.len() ==> rank[x] != rank[y],
        forall|i: usize| (i as int) < a.len() ==> #[trigger] rank.contains(i),
        a.len() <= usize::MAX,
    ensures
        cluster_total(rank.map_values(|i: usize| a[i as int])) == cluster_total(a),
    decreases a.len(),
{
    let b = rank.map_values(|i: usize| a[i as int]);
    if a.len() == 0 {
        assert(b.len() == 0);
    } else {
        let n = a.len() - 1;
        assert(rank.contains(n as usize));
        let p = choose|x: int| 0 <= x < rank.len() && rank[x] == n as usize;
        let r2 = rank.remove(p);
        let a2 = a.drop_last();
        assert forall|x: int| 0 <= x < r2.len() implies r2[x] < a2.len() by {
            if x < p {
                assert(r2[x] == rank[x]);
            } else {
                assert(r2[x] == rank[x + 1]);
            }
        }
        assert forall|x: int, y: int| 0 <= x < y < r2.len() implies r2[x] != r2[y] by {
            if y < p {
            } else if x < p {
                assert(r2[y] == rank[y + 1]);
            } else {
                assert(r2[x] == rank[x + 1] && r2[y] == rank[y + 1]);
            }
        }
        assert forall|i: usize| (i as int) < a2.len() implies #[trigger] r2.contains(i) by {
            assert(rank.contains(i));
            let x = choose|x: int| 0 <= x < rank.len() && rank[x] == i;
            if x < p {
                assert(r2[x] == i);
            } else {
                assert(x != p);
                assert(r2[x - 1] == i);
            }
        }
        lemma_total_permuted(a2, r2);
        let b2 = r2.map_values(|i: usize| a2[i as int]);
        assert(b2 =~= b.remove(p)) by {
            assert forall|x: int| 0 <= x < b2.len() implies b2[x] == b.remove(p)[x] by {
                if x < p {
                    assert(b.remove(p)[x] == b[x]);
                } else {
                    assert(b.remove(p)[x] == b[x + 1]);
                }
            }
        }
        lemma_total_remove(b, p);
        assert(b[p] == a[n]);
        assert(a.last() == a[n]);
        assert(cluster_total(a) == cluster_total(a2) + a[n].count);
    }
}

proof fn lemma_clustered_count_le(es: Seq<EntryV>)
    ensures
        clustered_count(es) <= es.len(),
    decreases es.len(),
{
    if es.len() > 0 {
        lemma_clustered_count_le(es.drop_last());
    }
}

proof fn lemma_len_le_total(cs: Seq<ClusterV>)
    requires
        forall|i: int| 0 <= i < cs.len() ==> (#[trigger] cs[i]).count >= 1,
    ensures
        cs.len() <= cluster_total(cs),
    decreases cs.len(),
{
    if cs.len() > 0 {
        assert forall|i: int| 0 <= i < cs.drop_last().len() implies (#[trigger] cs.drop_last()[i]).count
            >= 1 by {
            assert(cs.drop_last()[i] == cs[i]);
        }
        lemma_len_le_total(cs.drop_last());
    }
}

/// Clustering, as ranked: the clusters in ranking order still count every WARN,
/// ERROR and FATAL entry once in all, each has its shape (see [`cluster_shape`]), and
/// no two share a template.
pub proof fn lemma_ranked_clusters(es: Seq<EntryV>, rank: Seq<usize>)
    requires
        is_ranking(cluster_counts(cluster_fold(es)), rank),
        es.len() <= usize::MAX,
    ensures
        ({
            let v = rank.map_values(|i: usize| cluster_fold(es)[i as int]);
            &&& cluster_total(v) == clustered_count(es)
            &&& forall|i: int| 0 <= i < v.len() ==> cluster_shape(#[trigger] v[i])
            &&& forall|a: int, b: int|
                0 <= a < b < v.len() ==> (#[trigger] v[a]).template != (#[trigger] v[b]).template
        }),
{
    let f = cluster_fold(es);
    let v = rank.map_values(|i: usize| f[i as int]);
    lemma_clusters(es);
    lemma_cluster_templates_distinct(es);
    lemma_clustered_count_le(es);
    lemma_len_le_total(f);
    lemma_ranking_is_permutation(cluster_counts(f), rank);
    lemma_total_permuted(f, rank);
    assert forall|i: int| 0 <= i < v.len() implies cluster_shape(#[trigger] v[i]) by {
        assert(v[i] == f[rank[i] as int]);
    }
    assert forall|a: int, b: int| 0 <= a < b < v.len() implies (#[trigger] v[a]).template != (
    #[trigger] v[b]).template by {
        let x = rank[a] as int;
        let y = rank[b] as int;
        assert(x != y);
        if x < y {
            assert(f[x].template != f[y].template);
        } else {
            assert(f[y].template != f[x].template);
        }
    }
}

/// The number of timestamped entries whose second falls in the bucket of width `w`
/// that starts at `b`.
pub open spec fn bucket_entries(es: Seq<EntryV>, b: int, w: int) -> nat
    decreases es.len(),
{
    if es.len() == 0 {
        0
    } else {
        bucket_entries(es.drop_last(), b, w) + match es.last().timestamp {
            Some(t) => if bucket_of(t.secs as int, w) == b {
                1nat
            } else {
                0nat
            },
            None => 0nat,
        }
    }
}

/// The number of timestamped error-grade entries whose second falls in the bucket of
/// width `w` that starts at `b`.
pub open spec fn bucket_error_entries(es: Seq<EntryV>, b: int, w: int) -> nat
    decreases es.len(),
{
    if es.len() == 0 {
        0
    } else {
        bucket_error_entries(es.drop_last(), b, w) + match es.last().timestamp {
            Some(t) => if bucket_of(t.secs as int, w) == b && is_error_level(es.last().level) {
                1nat
            } else {
                0nat
            },
            None => 0nat,
        }
    }
}

proof fn lemma_bucket_pos_none(bs: Seq<BucketV>, b: int, i: int)
    requires
        0 <= i,
        bucket_pos(bs, b, i) is None,
    ensures
        forall|j: int| i <= j < bs.len() ==> (#[trigger] bs[j]).0 != b,
    decreases bs.len() - i,
{
    if i < bs.len() {
        lemma_bucket_pos_none(bs, b, i + 1);
    }
}

#[verifier::spinoff_prover]
#[verifier::rlimit(40)]
proof fn lemma_bucket_fold_counts(es: Seq<EntryV>, w: int)
    ensures
        ({
            let bs = bucket_fold(es, w);
            &&& forall|j: int|
                0 <= j < bs.len() ==> (#[trigger] bs[j]).1 == bucket_entries(es, bs[j].0, w)
                    && bs[j].2 == bucket_error_entries(es, bs[j].0, w)
            &&& forall|j: int, k: int|
                0 <= j < bs.len() && 0 <= k < bs.len() && j != k ==> (#[trigger] bs[j]).0
                    != (#[trigger] bs[k]).0
            &&& forall|b: int|
                (forall|j: int| 0 <= j < bs.len() ==> (#[trigger] bs[j]).0 != b) ==> (
                #[trigger] bucket_entries(es, b, w)) == 0 && bucket_error_entries(es, b, w) == 0
        }),
    decreases es.len(),
{
    if es.len() > 0 {
        let init = es.drop_last();
        lemma_bucket_fold_counts(init, w);
        let pre = bucket_fold(init, w);
        let bs = bucket_fold(es, w);
        let e = es.last();
        match e.timestamp {
            None => {
                assert(bs == pre);
                assert forall|j: int| 0 <= j < bs.len() implies (#[trigger] bs[j]).1
                    == bucket_entries(es, bs[j].0, w) && bs[j].2 == bucket_error_entries(
                    es,
                    bs[j].0,
                    w,
                ) by {
                    assert(bs[j] == pre[j]);
                    assert(bucket_entries(es, pre[j].0, w) == bucket_entries(init, pre[j].0, w));
                    assert(bucket_error_entries(es, pre[j].0, w) == bucket_error_entries(
                        init,
                        pre[j].0,
                        w,
                    ));
                }
                assert forall|b: int|
                    (forall|j: int| 0 <= j < bs.len() ==> (#[trigger] bs[j]).0 != b) implies (
                    #[trigger] bucket_entries(es, b, w)) == 0 && bucket_error_entries(es, b, w)
                    == 0 by {
                    assert forall|j: int| 0 <= j < pre.len() implies (#[trigger] pre[j]).0 != b by {
                        assert(bs[j].0 != b);
                    }
                    assert(bucket_entries(init, b, w) == 0);
                    assert(bucket_error_entries(init, b, w) == 0);
                }
            },
            Some(t) => {
                let b = bucket_of(t.secs as int, w);
                let err: nat = if is_error_level(e.level) { 1 } else { 0 };
                lemma_bucket_pos(pre, b, 0);
                match bucket_pos(pre, b, 0) {
                    Some(i) => {
                        assert(bs == pre.update(i, (b, pre[i].1 + 1, pre[i].2 + err)));
                        assert forall|j: int| 0 <= j < bs.len() implies (#[trigger] bs[j]).1
                            == bucket_entries(es, bs[j].0, w) && bs[j].2 == bucket_error_entries(
                            es,
                            bs[j].0,
                            w,
                        ) by {
                            if j != i {
                                assert(pre[j].0 != pre[i].0);
                                assert(bs[j] == pre[j]);
                            }
                        }
                        assert forall|j: int, k: int|
                            0 <= j < bs.len() && 0 <= k < bs.len() && j != k implies (
                            #[trigger] bs[j]).0 != (#[trigger] bs[k]).0 by {
                            assert(pre[j].0 != pre[k].0);
                        }
                        assert forall|b2: int|
                            (forall|j: int| 0 <= j < bs.len() ==> (#[trigger] bs[j]).0 != b2)
                                implies (#[trigger] bucket_entries(es, b2, w)) == 0
                            && bucket_error_entries(es, b2, w) == 0 by {
                            assert(bs[i].0 != b2);
                            assert forall|j: int| 0 <= j < pre.len() implies (#[trigger] pre[j]).0
                                != b2 by {
                                assert(bs[j].0 != b2);
                            }
                            assert(bucket_entries(init, b2, w) == 0);
                            assert(bucket_error_entries(init, b2, w) == 0);
                        }
                    },
                    None => {
                        lemma_bucket_pos_none(pre, b, 0);
                        assert(bs == pre.push((b, 1nat, err)));
                        assert forall|j: int| 0 <= j < bs.len() implies (#[trigger] bs[j]).1
                            == bucket_entries(es, bs[j].0, w) && bs[j].2 == bucket_error_entries(
                            es,
                            bs[j].0,
                            w,
                        ) by {
                            if j < pre.len() {
                                assert(bs[j] == pre[j]);
                                assert(pre[j].0 != b);
                            } else {
                                assert(bucket_entries(init, b, w) == 0);
                            }
                        }
                        assert forall|j: int, k: int|
                            0 <= j < bs.len() && 0 <= k < bs.len() && j != k implies (
                            #[trigger] bs[j]).0 != (#[trigger] bs[k]).0 by {
                            if j < pre.len() && k < pre.len() {
                                assert(pre[j].0 != pre[k].0);
                            } else if j < pre.len() {
                                assert(pre[j].0 != b);
                            } else if k < pre.len() {
                                assert(pre[k].0 != b);
                            }
                        }
                        assert forall|b2: int|
                            (forall|j: int| 0 <= j < bs.len() ==> (#[trigger] bs[j]).0 != b2)
                                implies (#[trigger] bucket_entries(es, b2, w)) == 0
                            && bucket_error_entries(es, b2, w) == 0 by {
                            assert(bs[pre.len() as int].0 != b2);
                            assert forall|j: int| 0 <= j < pre.len() implies (#[trigger] pre[j]).0
                                != b2 by {
                                assert(bs[j].0 != b2);
                            }
                            assert(bucket_entries(init, b2, w) == 0);
                            assert(bucket_error_entries(init, b2, w) == 0);
                        }
                    },
                }
            },
        }
    }
}

proof fn lemma_anomaly_list_from(bs: Seq<BucketV>, n: nat, all: nat)
    ensures
        forall|k: int|
            0 <= k < anomaly_list(bs, n, all).len() ==> exists|j: int|
                0 <= j < bs.len() && (#[trigger] anomaly_list(bs, n, all)[k]) == bucket_report(
                    #[trigger] bs[j],
                    n,
                    all,
                ),
    decreases bs.len(),
{
    if bs.len() > 0 {
        let init = bs.drop_last();
        lemma_anomaly_list_from(init, n, all);
        let rest = anomaly_list(init, n, all);
        let l = anomaly_list(bs, n, all);
        assert forall|k: int| 0 <= k < l.len() implies exists|j: int|
            0 <= j < bs.len() && (#[trigger] l[k]) == bucket_report(#[trigger] bs[j], n, all) by {
            if k < rest.len() {
                assert(l[k] == rest[k]);
                let j = choose|j: int|
                    0 <= j < init.len() && (#[trigger] rest[k]) == bucket_report(
                        #[trigger] init[j],
                        n,
                        all,
                    );
                assert(bs[j] == init[j]);
            } else {
                assert(bs[bs.len() - 1] == bs.last());
                assert(l[k] == bucket_report(bs[bs.len() - 1], n, all));
            }
        }
    }
}

/// Anomalies count what fell in their bucket: each reported anomaly is the bucket
/// of `minutes` minutes that starts at some second `b`, its timestamp is `b` in
/// RFC 3339, its entries are all the timestamped entries that fall in that bucket,
/// and its errors are the error-grade ones among them.
pub proof fn lemma_anomaly_bucket_counts(es: Seq<EntryV>, minutes: int)
    ensures
        forall|k: int|
            0 <= k < spec_anomalies(es, minutes).len() ==> exists|b: int|
                {
                    let a = #[trigger] spec_anomalies(es, minutes)[k];
                    &&& a.timestamp == spec_rfc3339(b as i64, 0)
                    &&& a.total_entries == #[trigger] bucket_entries(es, b, minutes * 60)
                    &&& a.error_count == bucket_error_entries(es, b, minutes * 60)
                },
{
    let w = minutes * 60;
    let bs = bucket_fold(es, w);
    let all = timed_errors(es);
    let v = spec_anomalies(es, minutes);
    lemma_bucket_fold_counts(es, w);
    lemma_anomaly_list_from(bs, bs.len(), all);
    assert forall|k: int| 0 <= k < v.len() implies exists|b: int|
        {
            let a = #[trigger] v[k];
            &&& a.timestamp == spec_rfc3339(b as i64, 0)
            &&& a.total_entries == #[trigger] bucket_entries(es, b, w)
            &&& a.error_count == bucket_error_entries(es, b, w)
        } by {
        let j = choose|j: int|
            0 <= j < bs.len() && (#[trigger] anomaly_list(bs, bs.len(), all)[k]) == bucket_report(
                #[trigger] bs[j],
                bs.len(),
                all,
            );
        assert(bs[j].1 == bucket_entries(es, bs[j].0, w));
    }
}

} // verus!
