//! Reading JSON log lines (`{"level":"info","msg":"...",...}`) into entries. The
//! JSON text is parsed by `serde_json`; here an object is its members in the parser's
//! order, each value reduced to what the entry needs.
use vstd::prelude::*;
use serde_json::Value;
use crate::models::{
    level_of_upper, lookup, store, EntryV, FieldMap, LogEntry, LogLevel, Timestamp,
};
use crate::parser::plain_parser::first_naive;
use crate::text::{chars_of, eq_str, spec_to_uppercase, string_of};
use crate::time::{
    from_millis, from_secs, parse_naive, parse_rfc2822, parse_rfc3339, spec_from_millis,
    spec_from_secs, spec_parse_naive, spec_parse_rfc2822, spec_parse_rfc3339, ts_of,
};

verus! {

/// The value of a JSON number.
#[derive(Debug, Clone, Copy, PartialEq, Eq, Structural)]
pub enum NumberValue {
    /// A non-negative integer.
    Unsigned(u64),
    /// A negative integer.
    Signed(i64),
    /// Any other number, by the IEEE 754 binary64 bits of the value `serde_json` read.
    Fractional(u64),
}

/// A JSON number: its text as `serde_json` writes it, and its value.
#[derive(Debug, Clone)]
pub struct JsonNumber {
    pub text: String,
    pub value: NumberValue,
}

/// A JSON value as the reader needs it.
#[derive(Debug, Clone)]
pub enum JsonValue {
    Str(String),
    Number(JsonNumber),
    Bool(bool),
    /// `null`, an array or an object, as `serde_json` writes it.
    Other(String),
}

/// The mathematical value of a [`JsonValue`].
pub enum JsonV {
    Str(Seq<char>),
    Number(Seq<char>, NumberValue),
    Bool(bool),
    Other(Seq<char>),
}

impl View for JsonValue {
    type V = JsonV;

    open spec fn view(&self) -> JsonV {
        match self {
            JsonValue::Str(s) => JsonV::Str(s@),
            JsonValue::Number(n) => JsonV::Number(n.text@, n.value),
            JsonValue::Bool(b) => JsonV::Bool(*b),
            JsonValue::Other(t) => JsonV::Other(t@),
        }
    }
}

/// The members of a JSON object.
pub open spec fn object_view(o: Seq<(String, JsonValue)>) -> Seq<(Seq<char>, JsonV)> {
    o.map_values(|m: (String, JsonValue)| (m.0@, m.1@))
}

/// A JSON object read from a line, if the line was one.
pub open spec fn json_view(o: Option<Vec<(String, JsonValue)>>) -> Option<Seq<(Seq<char>, JsonV)>> {
    match o {
        Some(v) => Some(object_view(v@)),
        None => None,
    }
}

/// `serde_json`'s reading of a line as a JSON object: its members, each value as a
/// [`JsonV`]; `None` when the line is not JSON or not an object.
pub uninterp spec fn spec_json_object(line: Seq<char>) -> Option<Seq<(Seq<char>, JsonV)>>;

/// `serde_json::from_str::<serde_json::Value>` then `Value::as_object`, each member
/// converted variant for variant: a string, a number with its `Display` text and its
/// `u64`, `i64` or binary64 reading (`as_u64`, `as_i64`, `as_f64` with `to_bits`), a
/// boolean, or anything else as its JSON text.
#[verifier::external_body]
fn read_object(line: &str) -> (r: Option<Vec<(String, JsonValue)>>)
    ensures
        json_view(r) == spec_json_object(line@),
{
    let v: Value = serde_json::from_str(line).ok()?;
    Some(v.as_object()?.iter().map(|(k, x)| (k.clone(), match x {
        Value::String(t) => JsonValue::Str(t.clone()),
        Value::Bool(b) => JsonValue::Bool(*b),
        Value::Number(n) => JsonValue::Number(JsonNumber { text: n.to_string(), value: match (n.as_u64(), n.as_i64()) {
            (Some(u), _) => NumberValue::Unsigned(u),
            (None, Some(i)) => NumberValue::Signed(i),
            _ => NumberValue::Fractional(n.as_f64().unwrap_or_default().to_bits()),
        } }),
        _ => JsonValue::Other(x.to_string()),
    })).collect())
}

pub open spec fn bool_text(b: bool) -> Seq<char> {
    if b {
        "true"@
    } else {
        "false"@
    }
}

/// The text of a string, number or boolean.
pub open spec fn scalar_text(v: JsonV) -> Option<Seq<char>> {
    match v {
        JsonV::Str(s) => Some(s),
        JsonV::Number(t, _) => Some(t),
        JsonV::Bool(b) => Some(bool_text(b)),
        JsonV::Other(_) => None,
    }
}

/// The text a value gives as a field: a string itself, anything else as JSON.
pub open spec fn field_text(v: JsonV) -> Seq<char> {
    match v {
        JsonV::Str(s) => s,
        JsonV::Number(t, _) => t,
        JsonV::Bool(b) => bool_text(b),
        JsonV::Other(t) => t,
    }
}

/// The text of the first of `keys` present with a string, number or boolean.
pub open spec fn extract(obj: Seq<(Seq<char>, JsonV)>, keys: Seq<Seq<char>>) -> Option<Seq<char>>
    decreases keys.len(),
{
    if keys.len() == 0 {
        None
    } else {
        match lookup(obj, keys[0]) {
            Some(v) => match scalar_text(v) {
                Some(t) => Some(t),
                None => extract(obj, keys.drop_first()),
            },
            None => extract(obj, keys.drop_first()),
        }
    }
}

pub open spec fn message_keys() -> Seq<Seq<char>> {
    seq!["msg"@, "message"@, "text"@, "log"@]
}

pub open spec fn level_keys() -> Seq<Seq<char>> {
    seq!["level"@, "severity"@, "lvl"@, "loglevel"@]
}

pub open spec fn source_keys() -> Seq<Seq<char>> {
    seq!["logger"@, "source"@, "module"@, "component"@, "name"@]
}

pub open spec fn timestamp_keys() -> Seq<Seq<char>> {
    seq!["timestamp"@, "time"@, "ts"@, "@timestamp"@, "datetime"@, "date"@, "created"@]
}

/// The keys that do not become fields.
pub open spec fn known_keys() -> Seq<Seq<char>> {
    message_keys() + level_keys() + source_keys() + seq![
        "timestamp"@,
        "time"@,
        "ts"@,
        "@timestamp"@,
        "datetime"@,
    ]
}

/// The `strftime` formats tried for a string timestamp after RFC 3339 and RFC 2822.
pub open spec fn json_formats() -> Seq<Seq<char>> {
    seq![
        "%Y-%m-%dT%H:%M:%S%.f%:z"@,
        "%Y-%m-%dT%H:%M:%S%z"@,
        "%Y-%m-%d %H:%M:%S%.f"@,
        "%Y-%m-%d %H:%M:%S"@,
        "%d/%b/%Y:%H:%M:%S %z"@,
    ]
}

/// The instant a string timestamp gives.
pub open spec fn str_instant(s: Seq<char>) -> Option<Timestamp> {
    match ts_of(spec_parse_rfc3339(s)) {
        Some(t) => Some(t),
        None => match ts_of(spec_parse_rfc2822(s)) {
            Some(t) => Some(t),
            None => first_naive(s, json_formats(), 0),
        },
    }
}

// ---------------------------------------------------------------------------
// Binary64 numbers
// ---------------------------------------------------------------------------

/// 2 to the power `k`.
pub open spec fn two_pow(k: nat) -> nat
    decreases k,
{
    if k == 0 {
        1
    } else {
        2 * two_pow((k - 1) as nat)
    }
}

/// The sign bit of binary64 bits.
pub open spec fn sign_set(b: u64) -> bool {
    b >= 0x8000_0000_0000_0000
}

/// The biased exponent field.
pub open spec fn exp_field(b: u64) -> nat {
    ((b / 0x10_0000_0000_0000) % 2048) as nat
}

/// The fraction field.
pub open spec fn frac_field(b: u64) -> nat {
    (b % 0x10_0000_0000_0000) as nat
}

/// The significand of finite bits; their magnitude is `significand(b) * 2^scale(b)`.
pub open spec fn significand(b: u64) -> nat {
    if exp_field(b) == 0 {
        frac_field(b)
    } else {
        frac_field(b) + 0x10_0000_0000_0000
    }
}

pub open spec fn scale(b: u64) -> int {
    if exp_field(b) == 0 {
        -1074
    } else {
        exp_field(b) - 1075
    }
}

/// The whole part of the magnitude of finite bits.
pub open spec fn whole_part(b: u64) -> nat {
    if scale(b) >= 0 {
        significand(b) * two_pow(scale(b) as nat)
    } else {
        significand(b) / two_pow((-scale(b)) as nat)
    }
}

/// Finite bits whose magnitude has a non-zero fractional part.
pub open spec fn has_fraction(b: u64) -> bool {
    scale(b) < 0 && significand(b) % two_pow((-scale(b)) as nat) != 0
}

/// The number converted to `i64` as Rust's `as` does: truncated toward zero,
/// saturating at the bounds of `i64`, NaN giving 0.
pub open spec fn float_to_i64(b: u64) -> i64 {
    if exp_field(b) == 2047 {
        if frac_field(b) != 0 {
            0
        } else if sign_set(b) {
            i64::MIN
        } else {
            i64::MAX
        }
    } else if sign_set(b) {
        if whole_part(b) >= 0x8000_0000_0000_0000 {
            i64::MIN
        } else {
            (-(whole_part(b) as int)) as i64
        }
    } else if whole_part(b) > i64::MAX {
        i64::MAX
    } else {
        whole_part(b) as i64
    }
}

/// The number is greater than 10^12 (NaN is not).
pub open spec fn float_above_trillion(b: u64) -> bool {
    &&& !sign_set(b)
    &&& if exp_field(b) == 2047 {
        frac_field(b) == 0
    } else {
        whole_part(b) > 1_000_000_000_000 || (whole_part(b) == 1_000_000_000_000 && has_fraction(b))
    }
}

proof fn lemma_two_pow_mono(a: nat, b: nat)
    requires
        a <= b,
    ensures
        1 <= two_pow(a) <= two_pow(b),
    decreases b,
{
    if b > 0 {
        if a == b {
            lemma_two_pow_mono(0, (b - 1) as nat);
        } else {
            lemma_two_pow_mono(a, (b - 1) as nat);
        }
    }
}

proof fn lemma_two_pow_values()
    ensures
        two_pow(10) == 1024,
        two_pow(11) == 2048,
        two_pow(63) == 0x8000_0000_0000_0000,
        two_pow(64) == 0x1_0000_0000_0000_0000,
{
    reveal_with_fuel(two_pow, 65);
}

fn two_pow_exec(k: u64) -> (r: u64)
    requires
        k < 64,
    ensures
        r == two_pow(k as nat),
{
    proof {
        lemma_two_pow_values();
    }
    let mut r: u64 = 1;
    let mut i: u64 = 0;
    while i < k
        invariant
            i <= k < 64,
            r == two_pow(i as nat),
            two_pow(63) == 0x8000_0000_0000_0000,
        decreases k - i,
    {
        proof {
            lemma_two_pow_mono((i + 1) as nat, 63);
        }
        r = r * 2;
        i = i + 1;
    }
    r
}

/// The whole part of the magnitude of finite bits, saturated at 2^63.
pub open spec fn saturated_whole(b: u64) -> nat {
    if whole_part(b) >= 0x8000_0000_0000_0000 {
        0x8000_0000_0000_0000
    } else {
        whole_part(b)
    }
}

/// [`saturated_whole`] and [`has_fraction`] of finite bits.
fn magnitude(b: u64) -> (r: (u64, bool))
    requires
        exp_field(b) != 2047,
    ensures
        r.0 == saturated_whole(b),
        r.1 == has_fraction(b),
{
    let e: u64 = (b / 0x10_0000_0000_0000) % 2048;
    let f: u64 = b % 0x10_0000_0000_0000;
    let m: u64 = if e == 0 {
        f
    } else {
        f + 0x10_0000_0000_0000
    };
    assert(m == significand(b) && m < 0x20_0000_0000_0000);
    proof {
        lemma_two_pow_values();
    }
    if e >= 1075 {
        let k: u64 = e - 1075;
        if k >= 11 {
            proof {
                lemma_two_pow_mono(11, k as nat);
                assert(m * two_pow(k as nat) >= 0x10_0000_0000_0000 * 2048) by (nonlinear_arith)
                    requires
                        m >= 0x10_0000_0000_0000,
                        two_pow(k as nat) >= 2048,
                ;
            }
            (0x8000_0000_0000_0000u64, false)
        } else {
            let p = two_pow_exec(k);
            proof {
                lemma_two_pow_mono(k as nat, 10);
                assert(m * p < 0x8000_0000_0000_0000) by (nonlinear_arith)
                    requires
                        m < 0x20_0000_0000_0000,
                        p <= 1024,
                ;
            }
            (m * p, false)
        }
    } else {
        let sh: u64 = if e == 0 {
            1074
        } else {
            1075 - e
        };
        assert(sh as int == -scale(b));
        if sh >= 64 {
            proof {
                lemma_two_pow_mono(64, sh as nat);
                vstd::arithmetic::div_mod::lemma_basic_div(m as int, two_pow(sh as nat) as int);
                vstd::arithmetic::div_mod::lemma_small_mod(m as nat, two_pow(sh as nat));
            }
            (0u64, m != 0)
        } else {
            let p = two_pow_exec(sh);
            proof {
                lemma_two_pow_mono(0, sh as nat);
            }
            (m / p, m % p != 0)
        }
    }
}

/// [`float_to_i64`] and [`float_above_trillion`] of binary64 bits.
fn float_trunc(b: u64) -> (r: (i64, bool))
    ensures
        r.0 == float_to_i64(b),
        r.1 == float_above_trillion(b),
{
    let e: u64 = (b / 0x10_0000_0000_0000) % 2048;
    let f: u64 = b % 0x10_0000_0000_0000;
    let neg = b >= 0x8000_0000_0000_0000;
    if e == 2047 {
        let t: i64 = if f != 0 {
            0
        } else if neg {
            i64::MIN
        } else {
            i64::MAX
        };
        return (t, !neg && f == 0);
    }
    let (w, frac) = magnitude(b);
    let t: i64 = if neg {
        if w >= 0x8000_0000_0000_0000 {
            i64::MIN
        } else {
            -(w as i64)
        }
    } else if w > 0x7fff_ffff_ffff_ffff {
        i64::MAX
    } else {
        w as i64
    };
    (t, !neg && (w > 1_000_000_000_000 || (w == 1_000_000_000_000 && frac)))
}

/// The instant a fractional number `v` gives: `chrono`'s `from_timestamp_millis` of
/// `v as i64` when `v > 10^12`, else its `from_timestamp` of `v as i64` seconds.
pub open spec fn fraction_instant(b: u64) -> Option<Timestamp> {
    if float_above_trillion(b) {
        ts_of(spec_from_millis(float_to_i64(b)))
    } else {
        ts_of(spec_from_secs(float_to_i64(b)))
    }
}

/// The instant a number gives: milliseconds above 10^12, else seconds (a value past
/// `i64::MAX` is taken as `i64::MAX`).
pub open spec fn number_instant(n: NumberValue) -> Option<Timestamp> {
    match n {
        NumberValue::Unsigned(u) => if u > 1_000_000_000_000 {
            ts_of(spec_from_millis(if u > i64::MAX { i64::MAX } else { u as i64 }))
        } else {
            ts_of(spec_from_secs(u as i64))
        },
        NumberValue::Signed(i) => if i > 1_000_000_000_000 {
            ts_of(spec_from_millis(i))
        } else {
            ts_of(spec_from_secs(i))
        },
        NumberValue::Fractional(b) => fraction_instant(b),
    }
}

/// The timestamp: the first of `keys` present with a string that reads as a date, or
/// with a number (whose instant is taken, readable or not).
pub open spec fn extract_ts(obj: Seq<(Seq<char>, JsonV)>, keys: Seq<Seq<char>>) -> Option<Timestamp>
    decreases keys.len(),
{
    if keys.len() == 0 {
        None
    } else {
        match lookup(obj, keys[0]) {
            Some(JsonV::Str(s)) => match str_instant(s) {
                Some(t) => Some(t),
                None => extract_ts(obj, keys.drop_first()),
            },
            Some(JsonV::Number(_, n)) => number_instant(n),
            _ => extract_ts(obj, keys.drop_first()),
        }
    }
}

/// The members that are not [`known_keys`], as fields.
pub open spec fn json_fields(obj: Seq<(Seq<char>, JsonV)>) -> Seq<(Seq<char>, Seq<char>)>
    decreases obj.len(),
{
    if obj.len() == 0 {
        Seq::empty()
    } else {
        let rest = json_fields(obj.drop_last());
        let (k, v) = obj.last();
        if known_keys().contains(k) {
            rest
        } else {
            store(rest, k, field_text(v))
        }
    }
}

/// The entry a JSON object read from `line` gives.
pub open spec fn spec_json_entry(obj: Seq<(Seq<char>, JsonV)>, line: Seq<char>) -> EntryV {
    EntryV {
        line_number: 0,
        timestamp: extract_ts(obj, timestamp_keys()),
        level: level_of_upper(
            spec_to_uppercase(
                match extract(obj, level_keys()) {
                    Some(t) => t,
                    None => Seq::empty(),
                },
            ),
        ),
        source: extract(obj, source_keys()),
        message: match extract(obj, message_keys()) {
            Some(t) => t,
            None => Seq::empty(),
        },
        fields: json_fields(obj),
        raw_line: line,
    }
}

/// The member under `key` (`Map::get`).
fn member<'a>(obj: &'a Vec<(String, JsonValue)>, key: &str) -> (r: Option<&'a JsonValue>)
    ensures
        match r {
            Some(v) => lookup(object_view(obj@), key@) == Some(v@),
            None => lookup(object_view(obj@), key@) == None::<JsonV>,
        },
{
    let ghost p = object_view(obj@);
    let kc = chars_of(key);
    let mut i: usize = 0;
    while i < obj.len()
        invariant
            p == object_view(obj@),
            kc@ == key@,
            i <= obj.len(),
            crate::models::key_pos(p, key@, 0) == crate::models::key_pos(p, key@, i as int),
        decreases obj.len() - i,
    {
        let c = chars_of(obj[i].0.as_str());
        assert(p[i as int].0 == c@);
        if crate::text::chars_eq(&c, &kc) {
            return Some(&obj[i].1);
        }
        i = i + 1;
    }
    None
}

fn scalar_of(v: &JsonValue) -> (r: Option<String>)
    ensures
        crate::models::opt_view(r) == scalar_text(v@),
{
    match v {
        JsonValue::Str(s) => Some(s.clone()),
        JsonValue::Number(n) => Some(n.text.clone()),
        JsonValue::Bool(b) => Some(if *b { "true".to_string() } else { "false".to_string() }),
        JsonValue::Other(_) => None,
    }
}

fn text_of(v: &JsonValue) -> (r: String)
    ensures
        r@ == field_text(v@),
{
    match v {
        JsonValue::Str(s) => s.clone(),
        JsonValue::Number(n) => n.text.clone(),
        JsonValue::Bool(b) => if *b { "true".to_string() } else { "false".to_string() },
        JsonValue::Other(t) => t.clone(),
    }
}

/// The text of the first of `keys` present with a string, number or boolean.
fn extract_string(obj: &Vec<(String, JsonValue)>, keys: &Vec<&str>) -> (r: Option<String>)
    ensures
        crate::models::opt_view(r) == extract(
            object_view(obj@),
            keys@.map_values(|k: &str| k@),
        ),
{
    let ghost ks = keys@.map_values(|k: &str| k@);
    let mut i: usize = 0;
    assert(ks.skip(0) =~= ks);
    while i < keys.len()
        invariant
            i <= keys.len(),
            ks == keys@.map_values(|k: &str| k@),
            extract(object_view(obj@), ks) == extract(object_view(obj@), ks.skip(i as int)),
        decreases keys.len() - i,
    {
        assert(ks.skip(i as int)[0] == keys@[i as int]@);
        assert(ks.skip(i as int).drop_first() =~= ks.skip(i + 1));
        if let Some(v) = member(obj, keys[i]) {
            if let Some(t) = scalar_of(v) {
                return Some(t);
            }
        }
        i = i + 1;
    }
    None
}

fn instant_of_str(s: &str) -> (r: Option<Timestamp>)
    ensures
        r == str_instant(s@),
{
    if let Some(t) = parse_rfc3339(s) {
        return Some(t);
    }
    if let Some(t) = parse_rfc2822(s) {
        return Some(t);
    }
    proof {
        reveal_with_fuel(first_naive, 6);
    }
    if let Some(t) = parse_naive(s, "%Y-%m-%dT%H:%M:%S%.f%:z") {
        return Some(t);
    }
    if let Some(t) = parse_naive(s, "%Y-%m-%dT%H:%M:%S%z") {
        return Some(t);
    }
    if let Some(t) = parse_naive(s, "%Y-%m-%d %H:%M:%S%.f") {
        return Some(t);
    }
    if let Some(t) = parse_naive(s, "%Y-%m-%d %H:%M:%S") {
        return Some(t);
    }
    parse_naive(s, "%d/%b/%Y:%H:%M:%S %z")
}

/// The instant a number gives (see [`number_instant`]).
pub fn instant_of_number(n: NumberValue) -> (r: Option<Timestamp>)
    ensures
        r == number_instant(n),
{
    match n {
        NumberValue::Unsigned(u) => if u > 1_000_000_000_000 {
            let ms: i64 = if u > 9_223_372_036_854_775_807u64 {
                9_223_372_036_854_775_807i64
            } else {
                u as i64
            };
            from_millis(ms)
        } else {
            from_secs(u as i64)
        },
        NumberValue::Signed(i) => if i > 1_000_000_000_000 {
            from_millis(i)
        } else {
            from_secs(i)
        },
        NumberValue::Fractional(b) => {
            let (t, above) = float_trunc(b);
            if above {
                from_millis(t)
            } else {
                from_secs(t)
            }
        },
    }
}

fn extract_timestamp(obj: &Vec<(String, JsonValue)>, keys: &Vec<&str>) -> (r: Option<Timestamp>)
    ensures
        r == extract_ts(object_view(obj@), keys@.map_values(|k: &str| k@)),
{
    let ghost ks = keys@.map_values(|k: &str| k@);
    let mut i: usize = 0;
    assert(ks.skip(0) =~= ks);
    while i < keys.len()
        invariant
            i <= keys.len(),
            ks == keys@.map_values(|k: &str| k@),
            extract_ts(object_view(obj@), ks) == extract_ts(object_view(obj@), ks.skip(i as int)),
        decreases keys.len() - i,
    {
        assert(ks.skip(i as int)[0] == keys@[i as int]@);
        assert(ks.skip(i as int).drop_first() =~= ks.skip(i + 1));
        match member(obj, keys[i]) {
            Some(JsonValue::Str(s)) => {
                if let Some(t) = instant_of_str(s.as_str()) {
                    return Some(t);
                }
            },
            Some(JsonValue::Number(n)) => {
                return instant_of_number(n.value);
            },
            _ => {},
        }
        i = i + 1;
    }
    None
}

fn is_known(k: &str) -> (r: bool)
    ensures
        r == known_keys().contains(k@),
{
    let c = chars_of(k);
    let names = vec![
        "msg", "message", "text", "log", "level", "severity", "lvl", "loglevel", "logger",
        "source", "module", "component", "name", "timestamp", "time", "ts", "@timestamp",
        "datetime",
    ];
    let ghost ns = names@.map_values(|n: &str| n@);
    assert(ns =~= known_keys());
    let mut i: usize = 0;
    while i < names.len()
        invariant
            i <= names.len(),
            ns == names@.map_values(|n: &str| n@),
            ns == known_keys(),
            c@ == k@,
            forall|j: int| 0 <= j < i ==> ns[j] != k@,
        decreases names.len() - i,
    {
        if eq_str(&c, names[i]) {
            assert(ns[i as int] == k@);
            assert(known_keys().contains(k@));
            return true;
        }
        i = i + 1;
    }
    false
}

/// The entry a JSON object read from `line` gives (see [`spec_json_entry`]).
pub fn parse_object(obj: &Vec<(String, JsonValue)>, line: &str) -> (r: LogEntry)
    ensures
        r@ == spec_json_entry(object_view(obj@), line@),
{
    let mk = vec!["msg", "message", "text", "log"];
    let lk = vec!["level", "severity", "lvl", "loglevel"];
    let sk = vec!["logger", "source", "module", "component", "name"];
    let tk = vec!["timestamp", "time", "ts", "@timestamp", "datetime", "date", "created"];
    assert(mk@.map_values(|k: &str| k@) =~= message_keys());
    assert(lk@.map_values(|k: &str| k@) =~= level_keys());
    assert(sk@.map_values(|k: &str| k@) =~= source_keys());
    assert(tk@.map_values(|k: &str| k@) =~= timestamp_keys());
    let message = match extract_string(obj, &mk) {
        Some(t) => t,
        None => String::new(),
    };
    let level_str = match extract_string(obj, &lk) {
        Some(t) => t,
        None => String::new(),
    };
    let source = extract_string(obj, &sk);
    let timestamp = extract_timestamp(obj, &tk);
    let ghost ov = object_view(obj@);
    let mut fields = FieldMap::new();
    let mut i: usize = 0;
    while i < obj.len()
        invariant
            i <= obj.len(),
            ov == object_view(obj@),
            fields.view_pairs() == json_fields(ov.take(i as int)),
        decreases obj.len() - i,
    {
        proof {
            assert(ov.take(i + 1).drop_last() =~= ov.take(i as int));
            assert(ov.take(i + 1).last() == ov[i as int]);
        }
        let k = obj[i].0.as_str();
        if !is_known(k) {
            fields.insert(obj[i].0.clone(), text_of(&obj[i].1));
        }
        i = i + 1;
    }
    assert(ov.take(obj.len() as int) =~= ov);
    LogEntry {
        line_number: 0,
        timestamp,
        level: LogLevel::from_str(level_str.as_str()),
        source,
        message,
        fields,
        raw_line: line.to_string(),
    }
}

/// Parse a single JSON log line (see [`spec_json_entry`]); `None` when it is not a
/// JSON object.
pub fn parse_line(line: &str) -> (r: Option<LogEntry>)
    ensures
        match spec_json_object(line@) {
            Some(o) => r matches Some(e) && e@ == spec_json_entry(o, line@),
            None => r is None,
        },
{
    match read_object(line) {
        Some(obj) => Some(parse_object(&obj, line)),
        None => None,
    }
}

} // verus!
