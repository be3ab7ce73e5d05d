//! Log models and data structures.
use vstd::prelude::*;
use crate::compress::{spec_looks_like_uuid, uuid_chars};
use crate::text::{
    chars_of, count_char, digit, digits_end, digits_end_at, dotted_end, dotted_end_at, eq_str,
    hex_end, hex_end_at, is_digit, is_path_char, parses_as_ipv4, path_end, path_end_at, push_lit, push_range,
    slice, spec_parses_as_ipv4, spec_to_uppercase, string_of, to_uppercase, ascii_lower,
    ascii_upper, is_ascii_text,
};

verus! {

// ---------------------------------------------------------------------------
// Levels
// ---------------------------------------------------------------------------

/// Log level/severity.
#[derive(Debug, Clone, PartialEq, Eq, Hash, PartialOrd, Ord)]
pub enum LogLevel {
    Trace,
    Debug,
    Info,
    Warn,
    Error,
    Fatal,
    Unknown(String),
}

/// The mathematical value of a [`LogLevel`].
pub enum LevelV {
    Trace,
    Debug,
    Info,
    Warn,
    Error,
    Fatal,
    Unknown(Seq<char>),
}

impl View for LogLevel {
    type V = LevelV;

    open spec fn view(&self) -> LevelV {
        match self {
            LogLevel::Trace => LevelV::Trace,
            LogLevel::Debug => LevelV::Debug,
            LogLevel::Info => LevelV::Info,
            LogLevel::Warn => LevelV::Warn,
            LogLevel::Error => LevelV::Error,
            LogLevel::Fatal => LevelV::Fatal,
            LogLevel::Unknown(s) => LevelV::Unknown(s@),
        }
    }
}

/// The display name of a level.
pub open spec fn level_name(l: LevelV) -> Seq<char> {
    match l {
        LevelV::Trace => "TRACE"@,
        LevelV::Debug => "DEBUG"@,
        LevelV::Info => "INFO"@,
        LevelV::Warn => "WARN"@,
        LevelV::Error => "ERROR"@,
        LevelV::Fatal => "FATAL"@,
        LevelV::Unknown(s) => s,
    }
}

/// The level an upper-cased level word names; any other word is kept as unknown.
pub open spec fn level_of_upper(u: Seq<char>) -> LevelV {
    if u == "TRACE"@ || u == "TRC"@ || u == "VERBOSE"@ {
        LevelV::Trace
    } else if u == "DEBUG"@ || u == "DBG"@ || u == "DGB"@ {
        LevelV::Debug
    } else if u == "INFO"@ || u == "INF"@ || u == "INFORMATION"@ {
        LevelV::Info
    } else if u == "WARN"@ || u == "WRN"@ || u == "WARNING"@ {
        LevelV::Warn
    } else if u == "ERROR"@ || u == "ERR"@ {
        LevelV::Error
    } else if u == "FATAL"@ || u == "FTL"@ || u == "CRIT"@ || u == "CRITICAL"@ || u == "PANIC"@ {
        LevelV::Fatal
    } else {
        LevelV::Unknown(u)
    }
}

/// Level names read back: the name of a known level names that level, and a word that
/// names no level is kept, as it is, as an unknown level.
pub proof fn lemma_level_names(l: LevelV, u: Seq<char>)
    ensures
        !(l is Unknown) ==> level_of_upper(level_name(l)) == l,
        level_of_upper(u) is Unknown ==> level_of_upper(u) == LevelV::Unknown(u),
{
    reveal_strlit("TRACE");
    reveal_strlit("TRC");
    reveal_strlit("VERBOSE");
    reveal_strlit("DEBUG");
    reveal_strlit("DBG");
    reveal_strlit("DGB");
    reveal_strlit("INFO");
    reveal_strlit("INF");
    reveal_strlit("INFORMATION");
    reveal_strlit("WARN");
    reveal_strlit("WRN");
    reveal_strlit("WARNING");
    reveal_strlit("ERROR");
    reveal_strlit("ERR");
    reveal_strlit("FATAL");
    reveal_strlit("FTL");
    reveal_strlit("CRIT");
    reveal_strlit("CRITICAL");
    reveal_strlit("PANIC");
    let n = level_name(l);
    if !(l is Unknown) {
        assert(n.len() > 0);
        let first = n[0];
        assert("TRACE"@[0] == 'T' && "TRC"@[0] == 'T' && "VERBOSE"@[0] == 'V');
        assert("DEBUG"@[0] == 'D' && "DBG"@[0] == 'D' && "DGB"@[0] == 'D');
        assert("INFO"@[0] == 'I' && "INF"@[0] == 'I' && "INFORMATION"@[0] == 'I');
        assert("WARN"@[0] == 'W' && "WRN"@[0] == 'W' && "WARNING"@[0] == 'W');
        assert("ERROR"@[0] == 'E' && "ERR"@[0] == 'E');
        assert("FATAL"@[0] == 'F' && "FTL"@[0] == 'F' && "CRIT"@[0] == 'C');
        assert("CRITICAL"@[0] == 'C' && "PANIC"@[0] == 'P');
        assert(first == 'T' || first == 'D' || first == 'I' || first == 'W' || first == 'E'
            || first == 'F');
    }
}

/// Level words ignore ASCII case: upper-casing a text after lower-casing or
/// upper-casing it gives its upper-casing, so [`LogLevel::from_str`] reads an ASCII
/// text, its lower-cased and its upper-cased forms alike; the name of a known level is
/// ASCII upper case and reads back as that level.
pub proof fn lemma_level_case(s: Seq<char>, l: LevelV)
    ensures
        ascii_upper(ascii_lower(s)) == ascii_upper(s),
        ascii_upper(ascii_upper(s)) == ascii_upper(s),
        is_ascii_text(s) ==> is_ascii_text(ascii_lower(s)) && is_ascii_text(ascii_upper(s)),
        !(l is Unknown) ==> is_ascii_text(level_name(l)) && ascii_upper(level_name(l))
            == level_name(l) && level_of_upper(ascii_upper(level_name(l))) == l,
{
    assert(ascii_upper(ascii_lower(s)) =~= ascii_upper(s));
    assert(ascii_upper(ascii_upper(s)) =~= ascii_upper(s));
    if !(l is Unknown) {
        reveal_strlit("TRACE");
        reveal_strlit("DEBUG");
        reveal_strlit("INFO");
        reveal_strlit("WARN");
        reveal_strlit("ERROR");
        reveal_strlit("FATAL");
        let n = level_name(l);
        assert(ascii_upper(n) =~= n);
        lemma_level_names(l, n);
    }
}

/// Rank of a level in declaration order (the derived ordering compares ranks first).
pub open spec fn level_rank(l: LevelV) -> int {
    match l {
        LevelV::Trace => 0,
        LevelV::Debug => 1,
        LevelV::Info => 2,
        LevelV::Warn => 3,
        LevelV::Error => 4,
        LevelV::Fatal => 5,
        LevelV::Unknown(_) => 6,
    }
}

/// Lexicographic order of character sequences by code point (`String`'s order).
pub open spec fn seq_le(a: Seq<char>, b: Seq<char>) -> bool
    decreases a.len(),
{
    if a.len() == 0 {
        true
    } else if b.len() == 0 {
        false
    } else if a[0] != b[0] {
        a[0] < b[0]
    } else {
        seq_le(a.drop_first(), b.drop_first())
    }
}

/// `a >= b` in the declaration order of levels, unknown levels by their text.
pub open spec fn level_ge(a: LevelV, b: LevelV) -> bool {
    match (a, b) {
        (LevelV::Unknown(x), LevelV::Unknown(y)) => seq_le(y, x),
        _ => level_rank(a) >= level_rank(b),
    }
}

impl LogLevel {
    /// The display name of the level.
    pub fn as_str(&self) -> (r: &str)
        ensures
            r@ == level_name(self@),
    {
        match self {
            LogLevel::Trace => "TRACE",
            LogLevel::Debug => "DEBUG",
            LogLevel::Info => "INFO",
            LogLevel::Warn => "WARN",
            LogLevel::Error => "ERROR",
            LogLevel::Fatal => "FATAL",
            LogLevel::Unknown(s) => s.as_str(),
        }
    }

    /// Parses a level word, ignoring case.
    pub fn from_str(s: &str) -> (r: LogLevel)
        ensures
            r@ == level_of_upper(spec_to_uppercase(s@)),
            is_ascii_text(s@) ==> r@ == level_of_upper(ascii_upper(s@)),
    {
        let u = to_uppercase(s);
        LogLevel::from_upper(u)
    }

    /// The level an already upper-cased word names.
    pub fn from_upper(u: String) -> (r: LogLevel)
        ensures
            r@ == level_of_upper(u@),
    {
        let c = chars_of(u.as_str());
        if eq_str(&c, "TRACE") || eq_str(&c, "TRC") || eq_str(&c, "VERBOSE") {
            LogLevel::Trace
        } else if eq_str(&c, "DEBUG") || eq_str(&c, "DBG") || eq_str(&c, "DGB") {
            LogLevel::Debug
        } else if eq_str(&c, "INFO") || eq_str(&c, "INF") || eq_str(&c, "INFORMATION") {
            LogLevel::Info
        } else if eq_str(&c, "WARN") || eq_str(&c, "WRN") || eq_str(&c, "WARNING") {
            LogLevel::Warn
        } else if eq_str(&c, "ERROR") || eq_str(&c, "ERR") {
            LogLevel::Error
        } else if eq_str(&c, "FATAL") || eq_str(&c, "FTL") || eq_str(&c, "CRIT") || eq_str(
            &c,
            "CRITICAL",
        ) || eq_str(&c, "PANIC") {
            LogLevel::Fatal
        } else {
            LogLevel::Unknown(u)
        }
    }

    /// A copy of the level.
    pub fn copy(&self) -> (r: LogLevel)
        ensures
            r@ == self@,
    {
        match self {
            LogLevel::Trace => LogLevel::Trace,
            LogLevel::Debug => LogLevel::Debug,
            LogLevel::Info => LogLevel::Info,
            LogLevel::Warn => LogLevel::Warn,
            LogLevel::Error => LogLevel::Error,
            LogLevel::Fatal => LogLevel::Fatal,
            LogLevel::Unknown(s) => LogLevel::Unknown(s.clone()),
        }
    }

    /// `self >= other` in the order the derived `Ord` gives (declaration order, then
    /// the text of unknown levels).
    pub fn at_least(&self, other: &LogLevel) -> (r: bool)
        ensures
            r == level_ge(self@, other@),
    {
        match (self, other) {
            (LogLevel::Unknown(x), LogLevel::Unknown(y)) => {
                let xc = chars_of(x.as_str());
                let yc = chars_of(y.as_str());
                chars_le(&yc, &xc)
            },
            _ => self.rank() >= other.rank(),
        }
    }

    fn rank(&self) -> (r: u8)
        ensures
            r as int == level_rank(self@),
    {
        match self {
            LogLevel::Trace => 0,
            LogLevel::Debug => 1,
            LogLevel::Info => 2,
            LogLevel::Warn => 3,
            LogLevel::Error => 4,
            LogLevel::Fatal => 5,
            LogLevel::Unknown(_) => 6,
        }
    }

    /// Is this an error-grade level (`ERROR` or `FATAL`)?
    pub fn is_error(&self) -> (r: bool)
        ensures
            r == (self@ is Error || self@ is Fatal),
    {
        match self {
            LogLevel::Error | LogLevel::Fatal => true,
            _ => false,
        }
    }
}

proof fn lemma_seq_le_suffix(a: Seq<char>, b: Seq<char>, i: int)
    requires
        0 <= i <= a.len(),
        i <= b.len(),
        forall|k: int| 0 <= k < i ==> a[k] == b[k],
    ensures
        seq_le(a, b) == seq_le(a.skip(i), b.skip(i)),
    decreases i,
{
    if i > 0 {
        assert(a.drop_first().skip(i - 1) =~= a.skip(i));
        assert(b.drop_first().skip(i - 1) =~= b.skip(i));
        lemma_seq_le_suffix(a.drop_first(), b.drop_first(), i - 1);
    } else {
        assert(a.skip(0) =~= a);
        assert(b.skip(0) =~= b);
    }
}

fn chars_le(a: &Vec<char>, b: &Vec<char>) -> (r: bool)
    ensures
        r == seq_le(a@, b@),
{
    let mut i: usize = 0;
    while i < a.len() && i < b.len() && a[i] == b[i]
        invariant
            i <= a.len(),
            i <= b.len(),
            forall|k: int| 0 <= k < i ==> a@[k] == b@[k],
        decreases a.len() - i,
    {
        i = i + 1;
    }
    proof {
        lemma_seq_le_suffix(a@, b@, i as int);
    }
    if i == a.len() {
        true
    } else if i == b.len() {
        false
    } else {
        a[i] < b[i]
    }
}

// ---------------------------------------------------------------------------
// Timestamps and fields
// ---------------------------------------------------------------------------

/// An instant in UTC: whole seconds since the Unix epoch and the nanoseconds past
/// them (a leap second carries nanoseconds from 1_000_000_000 on). Ordered by
/// seconds, then nanoseconds.
#[derive(Debug, Clone, Copy, PartialEq, Eq, Structural, PartialOrd, Ord, Hash)]
pub struct Timestamp {
    pub secs: i64,
    pub nanos: u32,
}

/// `a` is no later than `b`.
pub open spec fn ts_le(a: Timestamp, b: Timestamp) -> bool {
    a.secs < b.secs || (a.secs == b.secs && a.nanos <= b.nanos)
}

pub fn timestamp_le(a: Timestamp, b: Timestamp) -> (r: bool)
    ensures
        r == ts_le(a, b),
{
    a.secs < b.secs || (a.secs == b.secs && a.nanos <= b.nanos)
}

/// Additional key-value fields of an entry, in insertion order; a key occurs once.
#[derive(Debug, Clone)]
pub struct FieldMap {
    pub pairs: Vec<(String, String)>,
}

pub open spec fn pairs_view(p: Seq<(String, String)>) -> Seq<(Seq<char>, Seq<char>)> {
    p.map_values(|e: (String, String)| (e.0@, e.1@))
}

/// Position of the first pair with key `k`, scanning from `i`.
pub open spec fn key_pos<V>(p: Seq<(Seq<char>, V)>, k: Seq<char>, i: int) -> Option<int>
    decreases p.len() - i,
{
    if i < 0 || i >= p.len() {
        None
    } else if p[i].0 == k {
        Some(i)
    } else {
        key_pos(p, k, i + 1)
    }
}

/// The value stored under key `k`.
pub open spec fn lookup<V>(p: Seq<(Seq<char>, V)>, k: Seq<char>) -> Option<V> {
    match key_pos(p, k, 0) {
        Some(i) => Some(p[i].1),
        None => None,
    }
}

/// Storing `v` under `k`: replaces the value in place, or appends a new pair.
pub open spec fn store<V>(p: Seq<(Seq<char>, V)>, k: Seq<char>, v: V) -> Seq<(Seq<char>, V)> {
    match key_pos(p, k, 0) {
        Some(i) => p.update(i, (k, v)),
        None => p.push((k, v)),
    }
}

/// No key occurs twice.
pub open spec fn keys_unique<V>(p: Seq<(Seq<char>, V)>) -> bool {
    forall|a: int, b: int| 0 <= a < b < p.len() ==> (#[trigger] p[a]).0 != (#[trigger] p[b]).0
}

/// Storing keeps every key unique.
pub proof fn lemma_store_unique<V>(p: Seq<(Seq<char>, V)>, k: Seq<char>, v: V)
    requires
        keys_unique(p),
    ensures
        keys_unique(store(p, k, v)),
{
    lemma_key_pos_range(p, k, 0);
    let q = store(p, k, v);
    match key_pos(p, k, 0) {
        Some(i) => {
            assert forall|a: int, b: int| 0 <= a < b < q.len() implies (#[trigger] q[a]).0
                != (#[trigger] q[b]).0 by {
                assert(q[a].0 == p[a].0 && q[b].0 == p[b].0);
            }
        },
        None => {
            assert forall|a: int, b: int| 0 <= a < b < q.len() implies (#[trigger] q[a]).0
                != (#[trigger] q[b]).0 by {
                if b < p.len() {
                    assert(q[a] == p[a] && q[b] == p[b]);
                } else {
                    assert(q[a] == p[a]);
                }
            }
        },
    }
}

proof fn lemma_key_pos_range<V>(p: Seq<(Seq<char>, V)>, k: Seq<char>, i: int)
    requires
        0 <= i,
    ensures
        match key_pos(p, k, i) {
            Some(j) => i <= j < p.len() && p[j].0 == k && forall|m: int|
                i <= m < j ==> p[m].0 != k,
            None => forall|m: int| i <= m < p.len() ==> p[m].0 != k,
        },
    decreases p.len() - i,
{
    if i < p.len() && p[i].0 != k {
        lemma_key_pos_range(p, k, i + 1);
    }
}

proof fn lemma_key_pos_char<V>(p: Seq<(Seq<char>, V)>, k: Seq<char>, i: int, j: int)
    requires
        0 <= i <= j <= p.len(),
        forall|m: int| i <= m < j ==> p[m].0 != k,
        j < p.len() ==> p[j].0 == k,
    ensures
        key_pos(p, k, i) == if j < p.len() {
            Some(j)
        } else {
            None::<int>
        },
    decreases j - i,
{
    if i < j {
        lemma_key_pos_char(p, k, i + 1, j);
    }
}

/// Reading back what was stored: `k` now holds `v`, every other key keeps its value.
pub proof fn lemma_store_lookup<V>(p: Seq<(Seq<char>, V)>, k: Seq<char>, v: V, k2: Seq<char>)
    ensures
        lookup(store(p, k, v), k) == Some(v),
        k2 != k ==> lookup(store(p, k, v), k2) == lookup(p, k2),
{
    let q = store(p, k, v);
    lemma_key_pos_range(p, k, 0);
    lemma_key_pos_range(p, k2, 0);
    match key_pos(p, k, 0) {
        Some(i) => {
            lemma_key_pos_char(q, k, 0, i);
            if k2 != k {
                match key_pos(p, k2, 0) {
                    Some(j) => {
                        lemma_key_pos_char(q, k2, 0, j);
                    },
                    None => {
                        lemma_key_pos_char(q, k2, 0, q.len() as int);
                    },
                }
            }
        },
        None => {
            lemma_key_pos_char(q, k, 0, p.len() as int);
            if k2 != k {
                match key_pos(p, k2, 0) {
                    Some(j) => {
                        lemma_key_pos_char(q, k2, 0, j);
                    },
                    None => {
                        lemma_key_pos_char(q, k2, 0, q.len() as int);
                    },
                }
            }
        },
    }
}

impl FieldMap {
    pub open spec fn view_pairs(&self) -> Seq<(Seq<char>, Seq<char>)> {
        pairs_view(self.pairs@)
    }

    /// An empty map.
    pub fn new() -> (r: FieldMap)
        ensures
            r.view_pairs() == Seq::<(Seq<char>, Seq<char>)>::empty(),
            keys_unique(r.view_pairs()),
    {
        let r = FieldMap { pairs: Vec::new() };
        assert(r.view_pairs() =~= Seq::<(Seq<char>, Seq<char>)>::empty());
        r
    }

    fn find(&self, key: &Vec<char>) -> (r: Option<usize>)
        ensures
            match r {
                Some(i) => key_pos(self.view_pairs(), key@, 0) == Some(i as int) && i
                    < self.pairs.len(),
                None => key_pos(self.view_pairs(), key@, 0) == None::<int>,
            },
    {
        let ghost p = self.view_pairs();
        let mut i: usize = 0;
        while i < self.pairs.len()
            invariant
                p == self.view_pairs(),
                i <= self.pairs.len(),
                key_pos(p, key@, 0) == key_pos(p, key@, i as int),
            decreases self.pairs.len() - i,
        {
            let kc = chars_of(self.pairs[i].0.as_str());
            assert(p[i as int].0 == kc@);
            if crate::text::chars_eq(&kc, key) {
                return Some(i);
            }
            i = i + 1;
        }
        None
    }

    /// Stores `value` under `key` (see [`store`]).
    pub fn insert(&mut self, key: String, value: String)
        ensures
            final(self).view_pairs() == store(old(self).view_pairs(), key@, value@),
            keys_unique(old(self).view_pairs()) ==> keys_unique(final(self).view_pairs()),
    {
        proof {
            if keys_unique(self.view_pairs()) {
                lemma_store_unique(self.view_pairs(), key@, value@);
            }
        }
        let kc = chars_of(key.as_str());
        let ghost p = self.view_pairs();
        let ghost kv = key@;
        let ghost vv = value@;
        match self.find(&kc) {
            Some(i) => {
                self.pairs.set(i, (key, value));
                assert(self.view_pairs() =~= p.update(i as int, (kv, vv)));
            },
            None => {
                self.pairs.push((key, value));
                assert(self.view_pairs() =~= p.push((kv, vv)));
            },
        }
    }

    /// The value stored under `key`.
    pub fn get(&self, key: &str) -> (r: Option<&String>)
        ensures
            match r {
                Some(v) => lookup(self.view_pairs(), key@) == Some(v@),
                None => lookup(self.view_pairs(), key@) == None::<Seq<char>>,
            },
    {
        let kc = chars_of(key);
        match self.find(&kc) {
            Some(i) => Some(&self.pairs[i].1),
            None => None,
        }
    }

    /// Number of keys.
    pub fn len(&self) -> (r: usize)
        ensures
            r == self.view_pairs().len(),
    {
        self.pairs.len()
    }

    /// A copy of the map.
    pub fn copy(&self) -> (r: FieldMap)
        ensures
            r.view_pairs() == self.view_pairs(),
    {
        let mut pairs: Vec<(String, String)> = Vec::new();
        let mut i: usize = 0;
        while i < self.pairs.len()
            invariant
                i <= self.pairs.len(),
                pairs_view(pairs@) == self.view_pairs().take(i as int),
            decreases self.pairs.len() - i,
        {
            let e = (self.pairs[i].0.clone(), self.pairs[i].1.clone());
            let ghost before = pairs@;
            pairs.push(e);
            proof {
                assert(pairs_view(pairs@) =~= pairs_view(before).push((e.0@, e.1@)));
                assert(self.view_pairs().take(i + 1) =~= self.view_pairs().take(i as int).push(
                    self.view_pairs()[i as int],
                ));
            }
            i = i + 1;
        }
        assert(self.view_pairs().take(self.pairs.len() as int) =~= self.view_pairs());
        FieldMap { pairs }
    }
}

// ---------------------------------------------------------------------------
// Entries
// ---------------------------------------------------------------------------

/// A single parsed log entry.
#[derive(Debug, Clone)]
pub struct LogEntry {
    /// Line number in the source text (1-indexed).
    pub line_number: usize,
    /// Timestamp if parsed.
    pub timestamp: Option<Timestamp>,
    /// Log level.
    pub level: LogLevel,
    /// Source/module/logger name.
    pub source: Option<String>,
    /// The log message text.
    pub message: String,
    /// Additional key-value fields.
    pub fields: FieldMap,
    /// The raw unparsed line.
    pub raw_line: String,
}

/// The mathematical value of a [`LogEntry`].
pub struct EntryV {
    pub line_number: usize,
    pub timestamp: Option<Timestamp>,
    pub level: LevelV,
    pub source: Option<Seq<char>>,
    pub message: Seq<char>,
    pub fields: Seq<(Seq<char>, Seq<char>)>,
    pub raw_line: Seq<char>,
}

pub open spec fn opt_view(o: Option<String>) -> Option<Seq<char>> {
    match o {
        Some(s) => Some(s@),
        None => None,
    }
}

impl View for LogEntry {
    type V = EntryV;

    open spec fn view(&self) -> EntryV {
        EntryV {
            line_number: self.line_number,
            timestamp: self.timestamp,
            level: self.level@,
            source: opt_view(self.source),
            message: self.message@,
            fields: self.fields.view_pairs(),
            raw_line: self.raw_line@,
        }
    }
}

pub fn copy_opt(o: &Option<String>) -> (r: Option<String>)
    ensures
        opt_view(r) == opt_view(*o),
{
    match o {
        Some(s) => Some(s.clone()),
        None => None,
    }
}

impl LogEntry {
    /// Extract a "template" for grouping similar messages (see [`template_message`]).
    pub fn message_template(&self) -> (r: String)
        ensures
            r@ == msg_template(self.message@),
    {
        template_message(self.message.as_str())
    }

    /// A copy of the entry.
    pub fn copy(&self) -> (r: LogEntry)
        ensures
            r@ == self@,
    {
        LogEntry {
            line_number: self.line_number,
            timestamp: self.timestamp,
            level: self.level.copy(),
            source: copy_opt(&self.source),
            message: self.message.clone(),
            fields: self.fields.copy(),
            raw_line: self.raw_line.clone(),
        }
    }
}

// ---------------------------------------------------------------------------
// Message templates
// ---------------------------------------------------------------------------

pub open spec fn lit_uuid() -> Seq<char> {
    seq!['{', 'U', 'U', 'I', 'D', '}']
}

pub open spec fn lit_hex() -> Seq<char> {
    seq!['{', 'H', 'E', 'X', '}']
}

pub open spec fn lit_num() -> Seq<char> {
    seq!['{', 'N', 'U', 'M', '}']
}

pub open spec fn lit_path() -> Seq<char> {
    seq!['{', 'P', 'A', 'T', 'H', '}']
}

pub open spec fn lit_ip() -> Seq<char> {
    seq!['{', 'I', 'P', '}']
}

/// End of a number starting at `p`: an optional `-`, digits, and an optional
/// fraction (a dot followed by at least one digit).
pub open spec fn num_end(s: Seq<char>, p: int) -> int {
    let j0 = if s[p] == '-' {
        p + 1
    } else {
        p
    };
    let j1 = digits_end(s, j0);
    if j1 < s.len() && s[j1] == '.' && j1 + 1 < s.len() && is_digit(s[j1 + 1]) {
        digits_end(s, j1 + 1)
    } else {
        j1
    }
}

/// A number starts at `p`.
pub open spec fn num_starts(s: Seq<char>, p: int) -> bool {
    is_digit(s[p]) || (s[p] == '-' && p + 1 < s.len() && is_digit(s[p + 1]))
}

/// A dotted quad that parses as an IPv4 address starts at `i`: the run of digits and
/// dots from a digit at `i` holds three dots and is an IPv4 address.
pub open spec fn ip_at(s: Seq<char>, i: int) -> bool {
    &&& is_digit(s[i])
    &&& i + 3 < s.len()
    &&& count_char(s, i, dotted_end(s, i), '.') == 3
    &&& spec_parses_as_ipv4(s.subrange(i, dotted_end(s, i)))
}

/// What the message templater emits at position `i`, and where it continues: a UUID,
/// a `0x` hex run of at least six characters, an IPv4 address, a number, a path with
/// a `/` after its first character, or else the character itself.
pub open spec fn msg_step(s: Seq<char>, i: int) -> (Seq<char>, int) {
    let len = s.len();
    let c = s[i];
    if i + 35 < len && spec_looks_like_uuid(s.subrange(i, i + 36)) {
        (lit_uuid(), i + 36)
    } else if c == '0' && i + 1 < len && (s[i + 1] == 'x' || s[i + 1] == 'X') {
        let j = hex_end(s, i + 2);
        if j - i >= 6 {
            (lit_hex(), j)
        } else {
            (s.subrange(i, j), j)
        }
    } else if ip_at(s, i) {
        (lit_ip(), dotted_end(s, i))
    } else if num_starts(s, i) {
        (lit_num(), num_end(s, i))
    } else if (c == '/' || (c == '~' && i + 1 < len && s[i + 1] == '/')) && i + 1 < len {
        let j = path_end(s, i + 1);
        if count_char(s, i + 1, j, '/') >= 1 {
            (lit_path(), j)
        } else {
            (s.subrange(i, j), j)
        }
    } else {
        (seq![c], i + 1)
    }
}

/// The template of `s` from position `i` on.
pub open spec fn msg_template_from(s: Seq<char>, i: int) -> Seq<char>
    decreases s.len() - i,
{
    if i < 0 || i >= s.len() {
        Seq::empty()
    } else {
        let st = msg_step(s, i);
        if st.1 <= i || st.1 > s.len() {
            st.0
        } else {
            st.0 + msg_template_from(s, st.1)
        }
    }
}

/// The template of a message: variable parts replaced by placeholders.
pub open spec fn msg_template(s: Seq<char>) -> Seq<char> {
    msg_template_from(s, 0)
}

/// Does a dotted quad that parses as an IPv4 address start at `i` (see [`ip_at`])?
fn ip_run(s: &Vec<char>, i: usize) -> (r: bool)
    requires
        i < s.len(),
        is_digit(s@[i as int]),
        i + 3 < s.len(),
    ensures
        r == ip_at(s@, i as int),
{
    let (j, dots) = dotted_end_at(s, i);
    if dots != 3 {
        return false;
    }
    let w = string_of(&slice(s, i, j));
    parses_as_ipv4(w.as_str())
}

/// Generate a message template by replacing variable parts (UUIDs, hex strings, IPv4
/// addresses, numbers, paths) with placeholders.
pub fn template_message(msg: &str) -> (r: String)
    ensures
        r@ == msg_template(msg@),
{
    let s = chars_of(msg);
    let len = s.len();
    let mut out: Vec<char> = Vec::new();
    let mut i: usize = 0;
    proof {
        reveal_strlit("{UUID}");
        reveal_strlit("{HEX}");
        reveal_strlit("{NUM}");
        reveal_strlit("{PATH}");
    }
    while i < len
        invariant
            len == s.len(),
            i <= len,
            out@ + msg_template_from(s@, i as int) == msg_template(s@),
        decreases len - i,
    {
        let ghost st = msg_step(s@, i as int);
        let ghost before = out@;
        proof {
            reveal_strlit("{UUID}");
            reveal_strlit("{HEX}");
            reveal_strlit("{NUM}");
            reveal_strlit("{PATH}");
            reveal_strlit("{IP}");
        }
        let c = s[i];
        let mut is_uuid = false;
        if len - i > 35 {
            let w = slice(&s, i, i + 36);
            is_uuid = uuid_chars(&w);
        }
        assert(is_uuid == (i + 35 < len && spec_looks_like_uuid(s@.subrange(i as int, i + 36))));
        let next: usize;
        if is_uuid {
            push_lit(&mut out, "{UUID}");
            next = i + 36;
            assert(out@ == before + st.0) by { assert(st.0 == lit_uuid()); }
        } else if c == '0' && i + 1 < len && (s[i + 1] == 'x' || s[i + 1] == 'X') {
            let j = hex_end_at(&s, i + 2);
            if j - i >= 6 {
                push_lit(&mut out, "{HEX}");
            } else {
                push_range(&mut out, &s, i, j);
            }
            next = j;
            assert(out@ == before + st.0);
        } else if digit(c) && len - i > 3 && ip_run(&s, i) {
            let (j, _) = dotted_end_at(&s, i);
            push_lit(&mut out, "{IP}");
            next = j;
            assert(out@ == before + st.0);
        } else if digit(c) || (c == '-' && i + 1 < len && digit(s[i + 1])) {
            let j0 = if c == '-' {
                i + 1
            } else {
                i
            };
            let j1 = digits_end_at(&s, j0);
            let j2 = if j1 < len && s[j1] == '.' && j1 + 1 < len && digit(s[j1 + 1]) {
                digits_end_at(&s, j1 + 1)
            } else {
                j1
            };
            push_lit(&mut out, "{NUM}");
            next = j2;
            assert(out@ == before + st.0);
        } else if (c == '/' || (c == '~' && i + 1 < len && s[i + 1] == '/')) && i + 1 < len {
            let (j, segments) = path_end_at(&s, i + 1);
            if segments >= 1 {
                push_lit(&mut out, "{PATH}");
            } else {
                push_range(&mut out, &s, i, j);
            }
            next = j;
            assert(out@ == before + st.0);
        } else {
            out.push(c);
            assert(out@ =~= before + seq![c]);
            next = i + 1;
        }
        proof {
            assert(out@ == before + st.0);
            assert(next as int == st.1);
            assert(st.1 > i);
        }
        i = next;
    }
    string_of(&out)
}

/// Aggregated counts by key (level, source, template, field key), in order of first
/// appearance; a key occurs once.
#[derive(Debug, Clone)]
pub struct CountMap {
    pub pairs: Vec<(String, usize)>,
}

pub open spec fn counts_view(p: Seq<(String, usize)>) -> Seq<(Seq<char>, nat)> {
    p.map_values(|e: (String, usize)| (e.0@, e.1 as nat))
}

/// Counting one more occurrence of `k`.
pub open spec fn bump(m: Seq<(Seq<char>, nat)>, k: Seq<char>) -> Seq<(Seq<char>, nat)> {
    store(
        m,
        k,
        match lookup(m, k) {
            Some(c) => c + 1,
            None => 1nat,
        },
    )
}

/// The counts of the keys of `ks`, in order of first appearance.
pub open spec fn tally(ks: Seq<Seq<char>>) -> Seq<(Seq<char>, nat)>
    decreases ks.len(),
{
    if ks.len() == 0 {
        Seq::empty()
    } else {
        bump(tally(ks.drop_last()), ks.last())
    }
}

/// How often `k` occurs in `ks`.
pub open spec fn occ(ks: Seq<Seq<char>>, k: Seq<char>) -> nat
    decreases ks.len(),
{
    if ks.len() == 0 {
        0
    } else {
        occ(ks.drop_last(), k) + if ks.last() == k {
            1nat
        } else {
            0nat
        }
    }
}

/// The sum of the counts.
pub open spec fn total(m: Seq<(Seq<char>, nat)>) -> nat
    decreases m.len(),
{
    if m.len() == 0 {
        0
    } else {
        total(m.drop_last()) + m.last().1
    }
}

/// Counting: the count of a key is how often it occurs; a key that does not occur has
/// no count.
pub proof fn lemma_tally_lookup(ks: Seq<Seq<char>>, k: Seq<char>)
    ensures
        lookup(tally(ks), k) == if occ(ks, k) == 0 {
            None
        } else {
            Some(occ(ks, k))
        },
    decreases ks.len(),
{
    if ks.len() > 0 {
        lemma_tally_lookup(ks.drop_last(), k);
        lemma_tally_lookup(ks.drop_last(), ks.last());
        let m = tally(ks.drop_last());
        let c = match lookup(m, ks.last()) {
            Some(c) => c + 1,
            None => 1nat,
        };
        lemma_store_lookup(m, ks.last(), c, k);
    }
}

proof fn lemma_total_update(m: Seq<(Seq<char>, nat)>, i: int, x: (Seq<char>, nat))
    requires
        0 <= i < m.len(),
    ensures
        total(m.update(i, x)) + m[i].1 == total(m) + x.1,
    decreases m.len(),
{
    let u = m.update(i, x);
    if i == m.len() - 1 {
        assert(u.drop_last() =~= m.drop_last());
    } else {
        assert(u.drop_last() =~= m.drop_last().update(i, x));
        lemma_total_update(m.drop_last(), i, x);
    }
}

/// Counting names every key once.
pub proof fn lemma_tally_unique(ks: Seq<Seq<char>>)
    ensures
        keys_unique(tally(ks)),
    decreases ks.len(),
{
    if ks.len() > 0 {
        lemma_tally_unique(ks.drop_last());
        let m = tally(ks.drop_last());
        lemma_store_unique(
            m,
            ks.last(),
            match lookup(m, ks.last()) {
                Some(c) => c + 1,
                None => 1nat,
            },
        );
    }
}

/// Counting again: all counts together make the number of keys counted.
pub proof fn lemma_tally_total(ks: Seq<Seq<char>>)
    ensures
        total(tally(ks)) == ks.len(),
    decreases ks.len(),
{
    if ks.len() > 0 {
        let m = tally(ks.drop_last());
        let k = ks.last();
        lemma_tally_total(ks.drop_last());
        lemma_key_pos_range(m, k, 0);
        match key_pos(m, k, 0) {
            Some(i) => {
                lemma_total_update(m, i, (k, m[i].1 + 1));
            },
            None => {
                assert(m.push((k, 1nat)).drop_last() =~= m);
            },
        }
    }
}

proof fn lemma_occ_le(ks: Seq<Seq<char>>, a: Seq<char>, b: Seq<char>)
    requires
        a != b,
    ensures
        occ(ks, a) + occ(ks, b) <= ks.len(),
    decreases ks.len(),
{
    if ks.len() > 0 {
        lemma_occ_le(ks.drop_last(), a, b);
    }
}

/// Two different keys occur together at most as often as there are keys.
pub proof fn lemma_two_counts(ks: Seq<Seq<char>>, a: Seq<char>, b: Seq<char>)
    requires
        a != b,
    ensures
        occ(ks, a) + occ(ks, b) <= ks.len(),
{
    lemma_occ_le(ks, a, b);
}

impl CountMap {
    pub open spec fn view_counts(&self) -> Seq<(Seq<char>, nat)> {
        counts_view(self.pairs@)
    }

    /// No counts.
    pub fn new() -> (r: CountMap)
        ensures
            r.view_counts() == Seq::<(Seq<char>, nat)>::empty(),
            keys_unique(r.view_counts()),
    {
        let r = CountMap { pairs: Vec::new() };
        assert(r.view_counts() =~= Seq::<(Seq<char>, nat)>::empty());
        r
    }

    fn find(&self, key: &Vec<char>) -> (r: Option<usize>)
        ensures
            match r {
                Some(i) => key_pos(self.view_counts(), key@, 0) == Some(i as int) && i
                    < self.pairs.len(),
                None => key_pos(self.view_counts(), key@, 0) == None::<int>,
            },
    {
        let ghost p = self.view_counts();
        let mut i: usize = 0;
        while i < self.pairs.len()
            invariant
                p == self.view_counts(),
                i <= self.pairs.len(),
                key_pos(p, key@, 0) == key_pos(p, key@, i as int),
            decreases self.pairs.len() - i,
        {
            let kc = chars_of(self.pairs[i].0.as_str());
            assert(p[i as int].0 == kc@);
            if crate::text::chars_eq(&kc, key) {
                return Some(i);
            }
            i = i + 1;
        }
        None
    }

    /// The count of `key`.
    pub fn get(&self, key: &str) -> (r: Option<usize>)
        ensures
            match r {
                Some(c) => lookup(self.view_counts(), key@) == Some(c as nat),
                None => lookup(self.view_counts(), key@) == None::<nat>,
            },
    {
        let kc = chars_of(key);
        match self.find(&kc) {
            Some(i) => Some(self.pairs[i].1),
            None => None,
        }
    }

    /// Counts one more occurrence of `key` (see [`bump`]).
    pub fn bump(&mut self, key: String)
        requires
            match lookup(old(self).view_counts(), key@) {
                Some(c) => c < usize::MAX,
                None => true,
            },
        ensures
            final(self).view_counts() == bump(old(self).view_counts(), key@),
            keys_unique(old(self).view_counts()) ==> keys_unique(final(self).view_counts()),
    {
        proof {
            if keys_unique(self.view_counts()) {
                lemma_store_unique(
                    self.view_counts(),
                    key@,
                    match lookup(self.view_counts(), key@) {
                        Some(c) => c + 1,
                        None => 1nat,
                    },
                );
            }
        }
        let kc = chars_of(key.as_str());
        let ghost p = self.view_counts();
        let ghost kv = key@;
        match self.find(&kc) {
            Some(i) => {
                let c = self.pairs[i].1;
                self.pairs.set(i, (key, c + 1));
                assert(self.view_counts() =~= p.update(i as int, (kv, (c + 1) as nat)));
            },
            None => {
                self.pairs.push((key, 1));
                assert(self.view_counts() =~= p.push((kv, 1nat)));
            },
        }
    }

    /// Number of keys.
    pub fn len(&self) -> (r: usize)
        ensures
            r == self.view_counts().len(),
    {
        self.pairs.len()
    }
}

/// A grouped cluster of similar log messages.
#[derive(Debug, Clone)]
pub struct ErrorCluster {
    pub template: String,
    pub count: usize,
    pub first_seen: Option<String>,
    pub last_seen: Option<String>,
    pub sample_messages: Vec<String>,
    pub sources: Vec<String>,
}

proof fn lemma_path_end_bounds(s: Seq<char>, j: int)
    requires
        0 <= j <= s.len(),
    ensures
        j <= path_end(s, j) <= s.len(),
    decreases s.len() - j,
{
    if j < s.len() && is_path_char(s[j]) {
        lemma_path_end_bounds(s, j + 1);
    }
}

proof fn lemma_count_char_some(s: Seq<char>, lo: int, hi: int, c: char)
    ensures
        count_char(s, lo, hi, c) >= 1 <==> exists|k: int| lo <= k < hi && s[k] == c,
    decreases hi - lo,
{
    if lo < hi {
        lemma_count_char_some(s, lo, hi - 1, c);
        if count_char(s, lo, hi - 1, c) >= 1 {
            let k = choose|k: int| lo <= k < hi - 1 && s[k] == c;
            assert(lo <= k < hi && s[k] == c);
        }
        if exists|k: int| lo <= k < hi && s[k] == c {
            let k = choose|k: int| lo <= k < hi && s[k] == c;
            if k < hi - 1 {
                assert(lo <= k < hi - 1 && s[k] == c);
            }
        }
    }
}

/// Paths in message templates: from a `/` (or `~/`), the run of path characters
/// (alphanumerics and `/ . _ -`) after it becomes `{PATH}` when it holds another
/// `/`, and is copied unchanged when it holds none; the template goes on after
/// the run.
pub proof fn lemma_path_template(s: Seq<char>, i: int)
    requires
        0 <= i,
        i + 1 < s.len(),
        s[i] == '/' || (s[i] == '~' && s[i + 1] == '/'),
    ensures
        ({
            let j = path_end(s, i + 1);
            &&& i + 1 <= j <= s.len()
            &&& (exists|k: int| i < k < j && s[k] == '/') ==> msg_template_from(s, i)
                == "{PATH}"@ + msg_template_from(s, j)
            &&& !(exists|k: int| i < k < j && s[k] == '/') ==> msg_template_from(s, i)
                == s.subrange(i, j) + msg_template_from(s, j)
        }),
{
    reveal_strlit("{PATH}");
    let j = path_end(s, i + 1);
    lemma_path_end_bounds(s, i + 1);
    lemma_count_char_some(s, i + 1, j, '/');
    if i + 35 < s.len() {
        assert(s.subrange(i, i + 36)[0] == s[i]);
    }
    if exists|k: int| i < k < j && s[k] == '/' {
        let k = choose|k: int| i < k < j && s[k] == '/';
        assert(i + 1 <= k < j && s[k] == '/');
    }
    assert(msg_step(s, i) == (if count_char(s, i + 1, j, '/') >= 1 {
        lit_path()
    } else {
        s.subrange(i, j)
    }, j));
}

} // verus!
