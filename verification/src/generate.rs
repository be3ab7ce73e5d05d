//! Mock log generation: simulated services, placeholder filling and line layouts per
//! output format. Random choices are drawn from `rand`'s thread generator; what is
//! stated of a generated line holds for every outcome of the draws.
use vstd::prelude::*;
use crate::models::{FieldMap, Timestamp};
use crate::text::{chars_of, eq_str, push_lit, string_of, vv};
use crate::time::{
    add_millis, format_ts, millis_between, now, parse_utc, spec_add_millis, spec_format,
    spec_millis_between, spec_parse_utc, ts_of,
};
use rand::Rng;

verus! {

// ---------------------------------------------------------------------------
// Random draws
// ---------------------------------------------------------------------------

#[verifier::external_type_specification]
#[verifier::external_body]
pub struct ExThreadRng(rand::rngs::ThreadRng);

/// `Rng::random_range(0..n)`: a value below `n` (the range must not be empty).
#[verifier::external_body]
fn random_below(rng: &mut rand::rngs::ThreadRng, n: u64) -> (r: u64)
    requires
        n > 0,
    ensures
        r < n,
{
    rng.random_range(0..n)
}

/// `Rng::random_range(lo..=hi)`: a value from `lo` to `hi` inclusive.
#[verifier::external_body]
fn random_between(rng: &mut rand::rngs::ThreadRng, lo: i64, hi: i64) -> (r: i64)
    requires
        lo <= hi,
    ensures
        lo <= r <= hi,
{
    rng.random_range(lo..=hi)
}

/// `Rng::random_ratio(1, 2)`: true or false with even chances.
#[verifier::external_body]
fn random_half(rng: &mut rand::rngs::ThreadRng) -> (r: bool) {
    rng.random_ratio(1, 2)
}

/// The hyphenated lower-case form of a UUID: 36 characters, hyphens at 8, 13, 18 and
/// 23, lower-case hexadecimal digits elsewhere.
pub open spec fn uuid_shape(s: Seq<char>) -> bool {
    &&& s.len() == 36
    &&& forall|i: int|
        0 <= i < 36 ==> if i == 8 || i == 13 || i == 18 || i == 23 {
            s[i] == '-'
        } else {
            ('0' <= #[trigger] s[i] <= '9') || ('a' <= s[i] <= 'f')
        }
}

/// `uuid::Uuid::new_v4().to_string()`: a random UUID, written hyphenated in lower case
/// (`Display` of `Uuid` is its `LowerHex` form). It panics if the operating system's
/// random source fails, which no input can rule out.
#[verifier::external_body]
fn new_uuid() -> (r: String)
    ensures
        uuid_shape(r@),
{
    uuid::Uuid::new_v4().to_string()
}

/// The lower-case hexadecimal digit of `d` (below 16).
pub open spec fn hex_char(d: nat) -> char {
    if d < 10 {
        (('0' as nat) + d) as char
    } else {
        (('a' as nat) + d - 10) as char
    }
}

/// How a character is written inside a JSON string literal: `"` and `\` and the
/// control characters escaped (`\b`, `\t`, `\n`, `\f`, `\r`, else `\u00XX`),
/// anything else as itself.
pub open spec fn json_char(c: char) -> Seq<char> {
    if c == '"' {
        seq!['\\', '"']
    } else if c == '\\' {
        seq!['\\', '\\']
    } else if c == '\u{8}' {
        seq!['\\', 'b']
    } else if c == '\t' {
        seq!['\\', 't']
    } else if c == '\n' {
        seq!['\\', 'n']
    } else if c == '\u{c}' {
        seq!['\\', 'f']
    } else if c == '\r' {
        seq!['\\', 'r']
    } else if (c as nat) < 0x20 {
        seq!['\\', 'u', '0', '0', hex_char((c as nat) / 16), hex_char((c as nat) % 16)]
    } else {
        seq![c]
    }
}

/// The characters of a string, each written as in a JSON string literal.
pub open spec fn json_escaped(s: Seq<char>) -> Seq<char>
    decreases s.len(),
{
    if s.len() == 0 {
        Seq::empty()
    } else {
        json_escaped(s.drop_last()) + json_char(s.last())
    }
}

/// `serde_json`'s rendering of a string as a JSON string literal.
pub open spec fn spec_json_string(s: Seq<char>) -> Seq<char> {
    seq!['"'] + json_escaped(s) + seq!['"']
}

/// `serde_json::to_string` of a string slice (a string always serialises): the text in
/// double quotes, escaped as [`json_char`] says (`format_escaped_str` in `ser.rs`).
#[verifier::external_body]
fn json_string(s: &str) -> (r: String)
    ensures
        r@ == spec_json_string(s@),
{
    serde_json::to_string(s).unwrap_or_default()
}

// ---------------------------------------------------------------------------
// Numbers as text
// ---------------------------------------------------------------------------

/// The decimal digit `d`.
pub open spec fn digit_char(d: nat) -> char {
    if d == 0 {
        '0'
    } else if d == 1 {
        '1'
    } else if d == 2 {
        '2'
    } else if d == 3 {
        '3'
    } else if d == 4 {
        '4'
    } else if d == 5 {
        '5'
    } else if d == 6 {
        '6'
    } else if d == 7 {
        '7'
    } else if d == 8 {
        '8'
    } else {
        '9'
    }
}

/// The decimal text of a natural number (`Display` of an integer).
pub open spec fn nat_text(n: nat) -> Seq<char>
    decreases n,
{
    if n < 10 {
        seq![digit_char(n)]
    } else {
        nat_text(n / 10) + seq![digit_char(n % 10)]
    }
}

/// The decimal text padded with zeros to width `w` (`{:0w}`).
pub open spec fn padded(n: nat, w: nat) -> Seq<char> {
    let t = nat_text(n);
    if t.len() >= w {
        t
    } else {
        Seq::new((w - t.len()) as nat, |i: int| '0') + t
    }
}

pub open spec fn pow10(d: nat) -> nat
    decreases d,
{
    if d == 0 {
        1
    } else {
        10 * pow10((d - 1) as nat)
    }
}

/// `n` units of `10^-d` written with `d` decimals (`{:.d}` of that value).
pub open spec fn dec_text(n: nat, d: nat) -> Seq<char> {
    nat_text(n / pow10(d)) + "."@ + padded(n % pow10(d), d)
}

fn digit_of(d: u64) -> (c: char)
    requires
        d < 10,
    ensures
        c == digit_char(d as nat),
{
    if d == 0 {
        '0'
    } else if d == 1 {
        '1'
    } else if d == 2 {
        '2'
    } else if d == 3 {
        '3'
    } else if d == 4 {
        '4'
    } else if d == 5 {
        '5'
    } else if d == 6 {
        '6'
    } else if d == 7 {
        '7'
    } else if d == 8 {
        '8'
    } else {
        '9'
    }
}

/// The decimal text of `n`.
pub fn nat_to_text(n: u64) -> (r: Vec<char>)
    ensures
        r@ == nat_text(n as nat),
    decreases n,
{
    if n < 10 {
        let mut v: Vec<char> = Vec::new();
        v.push(digit_of(n));
        assert(v@ =~= seq![digit_char(n as nat)]);
        v
    } else {
        let mut v = nat_to_text(n / 10);
        let ghost before = v@;
        v.push(digit_of(n % 10));
        assert(v@ =~= before + seq![digit_char((n % 10) as nat)]);
        v
    }
}

fn padded_text(n: u64, w: usize) -> (r: Vec<char>)
    ensures
        r@ == padded(n as nat, w as nat),
{
    let t = nat_to_text(n);
    if t.len() >= w {
        return t;
    }
    let mut r: Vec<char> = Vec::new();
    let k = w - t.len();
    let mut i: usize = 0;
    while i < k
        invariant
            i <= k,
            r@ == Seq::new(i as nat, |j: int| '0'),
        decreases k - i,
    {
        r.push('0');
        i = i + 1;
        assert(r@ =~= Seq::new(i as nat, |j: int| '0'));
    }
    let ghost z = r@;
    crate::text::push_range(&mut r, &t, 0, t.len());
    assert(t@.subrange(0, t.len() as int) =~= t@);
    r
}

fn dec_to_text(n: u64, d: u32) -> (r: Vec<char>)
    requires
        d <= 4,
    ensures
        r@ == dec_text(n as nat, d as nat),
{
    let p: u64 = if d == 0 {
        1
    } else if d == 1 {
        10
    } else if d == 2 {
        100
    } else if d == 3 {
        1000
    } else {
        10000
    };
    proof {
        reveal_with_fuel(pow10, 5);
    }
    assert(p as nat == pow10(d as nat));
    let mut r = nat_to_text(n / p);
    r.push('.');
    let f = padded_text(n % p, d as usize);
    crate::text::push_range(&mut r, &f, 0, f.len());
    proof {
        reveal_strlit(".");
        assert(f@.subrange(0, f.len() as int) =~= f@);
        assert(r@ =~= dec_text(n as nat, d as nat));
    }
    r
}

// ---------------------------------------------------------------------------
// Placeholder values
// ---------------------------------------------------------------------------

/// A lower-case letter or a digit (what `random_str` draws from).
pub open spec fn is_lower_alnum(c: char) -> bool {
    ('a' <= c <= 'z') || ('0' <= c <= '9')
}

/// An upper-case letter or a digit.
pub open spec fn is_upper_alnum(c: char) -> bool {
    ('A' <= c <= 'Z') || ('0' <= c <= '9')
}

/// A piece of a placeholder value.
pub enum PieceV {
    /// Fixed text.
    Lit(Seq<char>),
    /// `n` random lower-case letters and digits.
    Rand(nat),
    /// `n` random upper-case letters and digits.
    Upper(nat),
    /// A random integer from `lo` to `hi`, in decimal.
    Int(int, int),
    /// A random integer from `lo` to `hi`, padded with zeros to width `w`.
    Pad(int, int, nat),
    /// A random number of `10^-d` units from `lo` to `hi`, with `d` decimals.
    Dec(int, int, nat),
    /// `+` or `-`.
    Sign,
}

/// The text `s` is a possible outcome of piece `p`.
pub open spec fn piece_ok(s: Seq<char>, p: PieceV) -> bool {
    match p {
        PieceV::Lit(t) => s == t,
        PieceV::Rand(n) => s.len() == n && forall|i: int| 0 <= i < s.len() ==> is_lower_alnum(#[trigger] s[i]),
        PieceV::Upper(n) => s.len() == n && forall|i: int| 0 <= i < s.len() ==> is_upper_alnum(#[trigger] s[i]),
        PieceV::Int(lo, hi) => exists|n: nat| lo <= n <= hi && s == #[trigger] nat_text(n),
        PieceV::Pad(lo, hi, w) => exists|n: nat| lo <= n <= hi && s == #[trigger] padded(n, w),
        PieceV::Dec(lo, hi, d) => exists|n: nat| lo <= n <= hi && s == #[trigger] dec_text(n, d),
        PieceV::Sign => s == "+"@ || s == "-"@,
    }
}

/// The concatenation of texts.
pub open spec fn concat(parts: Seq<Seq<char>>) -> Seq<char>
    decreases parts.len(),
{
    if parts.len() == 0 {
        Seq::empty()
    } else {
        concat(parts.drop_last()) + parts.last()
    }
}

/// The text is a possible outcome of the pieces in turn.
pub open spec fn fits(v: Seq<char>, ps: Seq<PieceV>) -> bool {
    exists|parts: Seq<Seq<char>>|
        parts.len() == ps.len() && v == concat(parts) && forall|i: int|
            0 <= i < ps.len() ==> piece_ok(#[trigger] parts[i], ps[i])
}

/// What a placeholder is filled with.
pub enum KindV {
    Pieces(Seq<PieceV>),
    /// One of the listed texts.
    Pick(Seq<Seq<char>>),
    /// An HTTP status from [`status_table`].
    Status,
    /// A date (`%Y-%m-%d`) some days after the current one.
    Date,
    /// The key written back in braces.
    Unknown,
}

/// The HTTP statuses and their weights.
pub open spec fn status_table() -> Seq<(u16, u32)> {
    seq![
        (200u16, 400u32), (201, 80), (204, 30), (301, 10), (302, 15), (400, 50), (401, 40),
        (403, 20), (404, 35), (409, 15), (422, 20), (429, 25), (500, 25), (502, 10), (503, 15),
        (504, 10),
    ]
}

/// The text `v` is a possible value of a placeholder with key `k` of kind `kind`.
pub open spec fn value_ok(k: Seq<char>, kind: KindV, v: Seq<char>) -> bool {
    match kind {
        KindV::Pieces(ps) => fits(v, ps),
        KindV::Pick(l) => l.contains(v),
        KindV::Status => exists|i: int|
            0 <= i < status_table().len() && v == #[trigger] nat_text(status_table()[i].0 as nat),
        KindV::Date => exists|t: Timestamp| v == #[trigger] spec_format(t.secs, t.nanos, "%Y-%m-%d"@),
        KindV::Unknown => v == "{"@ + k + "}"@,
    }
}

/// A piece of a placeholder value (see [`PieceV`]).
pub enum Piece {
    Lit(&'static str),
    Rand(usize),
    Upper(usize),
    Int(i64, i64),
    Pad(i64, i64, usize),
    Dec(i64, i64, u32),
    Sign,
}

impl View for Piece {
    type V = PieceV;

    open spec fn view(&self) -> PieceV {
        match self {
            Piece::Lit(s) => PieceV::Lit(s@),
            Piece::Rand(n) => PieceV::Rand(*n as nat),
            Piece::Upper(n) => PieceV::Upper(*n as nat),
            Piece::Int(lo, hi) => PieceV::Int(*lo as int, *hi as int),
            Piece::Pad(lo, hi, w) => PieceV::Pad(*lo as int, *hi as int, *w as nat),
            Piece::Dec(lo, hi, d) => PieceV::Dec(*lo as int, *hi as int, *d as nat),
            Piece::Sign => PieceV::Sign,
        }
    }
}

/// What a placeholder is filled with (see [`KindV`]).
pub enum Kind {
    Pieces(Vec<Piece>),
    Pick(Vec<&'static str>),
    Status,
    Date,
    Unknown,
}

pub open spec fn strs_view(v: Seq<&str>) -> Seq<Seq<char>> {
    v.map_values(|s: &str| s@)
}

impl View for Kind {
    type V = KindV;

    open spec fn view(&self) -> KindV {
        match self {
            Kind::Pieces(ps) => KindV::Pieces(ps@.map_values(|p: Piece| p@)),
            Kind::Pick(l) => KindV::Pick(strs_view(l@)),
            Kind::Status => KindV::Status,
            Kind::Date => KindV::Date,
            Kind::Unknown => KindV::Unknown,
        }
    }
}

/// The pieces of a value are sane: ranges are not empty, integers are not negative,
/// and widths and decimals are small.
pub open spec fn piece_sane(p: PieceV) -> bool {
    match p {
        PieceV::Int(lo, hi) => 0 <= lo <= hi,
        PieceV::Pad(lo, hi, w) => 0 <= lo <= hi && w <= 8,
        PieceV::Dec(lo, hi, d) => 0 <= lo <= hi && d <= 4,
        PieceV::Rand(n) => n <= 64,
        PieceV::Upper(n) => n <= 64,
        _ => true,
    }
}

pub open spec fn pieces_sane(ps: Seq<PieceV>) -> bool {
    forall|i: int| 0 <= i < ps.len() ==> piece_sane(#[trigger] ps[i])
}

pub open spec fn kind_sane(k: KindV) -> bool {
    match k {
        KindV::Pieces(ps) => pieces_sane(ps),
        KindV::Pick(l) => l.len() > 0,
        _ => true,
    }
}

// ---------------------------------------------------------------------------
// Drawing values
// ---------------------------------------------------------------------------

/// The sum of weights.
pub open spec fn wsum(ws: Seq<u32>) -> nat
    decreases ws.len(),
{
    if ws.len() == 0 {
        0
    } else {
        wsum(ws.drop_last()) + ws.last() as nat
    }
}

/// The first position whose running total of weights exceeds `roll`.
pub open spec fn weighted_pick(ws: Seq<u32>, roll: int) -> Option<int> {
    if exists|i: int| 0 <= i < ws.len() && roll < wsum(#[trigger] ws.take(i + 1)) {
        Some(choose|i: int| 0 <= i < ws.len() && roll < wsum(#[trigger] ws.take(i + 1)) && forall|k: int| 0 <= k < i ==> roll >= wsum(#[trigger] ws.take(k + 1)))
    } else {
        None
    }
}

proof fn lemma_wsum_grows(ws: Seq<u32>, a: int, b: int)
    requires
        0 <= a <= b <= ws.len(),
    ensures
        wsum(ws.take(a)) <= wsum(ws.take(b)),
    decreases b - a,
{
    if a < b {
        assert(ws.take(b).drop_last() =~= ws.take(b - 1));
        lemma_wsum_grows(ws, a, b - 1);
    }
}

/// The total of the weights (which must fit in a `u64`).
fn total_weight(ws: &Vec<u32>) -> (r: u64)
    requires
        ws.len() <= 1000,
    ensures
        r == wsum(ws@),
{
    let mut t: u64 = 0;
    let mut i: usize = 0;
    assert(ws@.take(0) =~= Seq::<u32>::empty());
    while i < ws.len()
        invariant
            i <= ws.len(),
            ws.len() <= 1000,
            t == wsum(ws@.take(i as int)),
            t <= i * 0xffff_ffffu64,
        decreases ws.len() - i,
    {
        assert(ws@.take(i + 1).drop_last() =~= ws@.take(i as int));
        t = t + ws[i] as u64;
        i = i + 1;
    }
    assert(ws@.take(ws.len() as int) =~= ws@);
    t
}

/// The position [`weighted_pick`] gives for `roll`.
#[verifier::spinoff_prover]
#[verifier::rlimit(30)]
fn pick_weighted(ws: &Vec<u32>, roll: u64) -> (r: Option<usize>)
    requires
        ws.len() <= 1000,
    ensures
        match r {
            Some(i) => weighted_pick(ws@, roll as int) == Some(i as int) && i < ws.len(),
            None => weighted_pick(ws@, roll as int) == None::<int>,
        },
{
    let mut cum: u64 = 0;
    let mut i: usize = 0;
    assert(ws@.take(0) =~= Seq::<u32>::empty());
    while i < ws.len()
        invariant
            i <= ws.len(),
            ws.len() <= 1000,
            cum == wsum(ws@.take(i as int)),
            cum <= i * 0xffff_ffffu64,
            forall|k: int| 0 <= k < i ==> roll >= wsum(#[trigger] ws@.take(k + 1)),
        decreases ws.len() - i,
    {
        assert(ws@.take(i + 1).drop_last() =~= ws@.take(i as int));
        cum = cum + ws[i] as u64;
        if roll < cum {
            proof {
                let c = choose|c: int| 0 <= c < ws.len() && roll < wsum(#[trigger] ws@.take(c + 1)) && forall|k: int| 0 <= k < c ==> roll >= wsum(#[trigger] ws@.take(k + 1));
                if c < i {
                    assert(roll >= wsum(ws@.take(c + 1)));
                } else if c > i {
                    assert(roll >= wsum(ws@.take(i + 1)));
                }
            }
            return Some(i);
        }
        i = i + 1;
    }
    proof {
        assert forall|k: int| 0 <= k < ws.len() implies !(roll < wsum(#[trigger] ws@.take(k + 1))) by {
            assert(roll >= wsum(ws@.take(k + 1)));
        }
    }
    None
}

/// Random lower-case letters and digits (`random_str`).
fn random_str(rng: &mut rand::rngs::ThreadRng, len: usize) -> (r: Vec<char>)
    ensures
        piece_ok(r@, PieceV::Rand(len as nat)),
{
    let charset = chars_of("abcdefghijklmnopqrstuvwxyz0123456789");
    proof {
        reveal_strlit("abcdefghijklmnopqrstuvwxyz0123456789");
    }
    assert(charset.len() == 36);
    assert forall|i: int| 0 <= i < 36 implies is_lower_alnum(#[trigger] charset@[i]) by {}
    let mut r: Vec<char> = Vec::new();
    let mut i: usize = 0;
    while i < len
        invariant
            i <= len,
            r.len() == i,
            charset.len() == 36,
            forall|k: int| 0 <= k < 36 ==> is_lower_alnum(#[trigger] charset@[k]),
            forall|k: int| 0 <= k < r.len() ==> is_lower_alnum(#[trigger] r@[k]),
        decreases len - i,
    {
        let k = random_below(rng, 36) as usize;
        r.push(charset[k]);
        i = i + 1;
    }
    r
}

fn upper_of(c: char) -> (r: char)
    requires
        is_lower_alnum(c),
    ensures
        is_upper_alnum(r),
{
    if 'a' <= c && c <= 'z' {
        let b = (c as u8) - 32;
        b as char
    } else {
        c
    }
}

/// Random upper-case letters and digits (`random_str` in upper case).
fn random_upper(rng: &mut rand::rngs::ThreadRng, len: usize) -> (r: Vec<char>)
    ensures
        piece_ok(r@, PieceV::Upper(len as nat)),
{
    let s = random_str(rng, len);
    let mut r: Vec<char> = Vec::new();
    let mut i: usize = 0;
    while i < s.len()
        invariant
            i <= s.len(),
            s.len() == len,
            r.len() == i,
            forall|k: int| 0 <= k < s.len() ==> is_lower_alnum(#[trigger] s@[k]),
            forall|k: int| 0 <= k < r.len() ==> is_upper_alnum(#[trigger] r@[k]),
        decreases s.len() - i,
    {
        r.push(upper_of(s[i]));
        i = i + 1;
    }
    r
}

/// A random HTTP status, by the weights of [`status_table`].
fn random_status(rng: &mut rand::rngs::ThreadRng) -> (r: u16)
    ensures
        exists|i: int| 0 <= i < status_table().len() && r == #[trigger] status_table()[i].0,
{
    let statuses: Vec<u16> = vec![
        200, 201, 204, 301, 302, 400, 401, 403, 404, 409, 422, 429, 500, 502, 503, 504,
    ];
    let weights: Vec<u32> = vec![400, 80, 30, 10, 15, 50, 40, 20, 35, 15, 20, 25, 25, 10, 15, 10];
    assert(forall|i: int| 0 <= i < 16 ==> #[trigger] statuses@[i] == status_table()[i].0);
    let total = total_weight(&weights);
    assert(total == 800) by {
        reveal_with_fuel(wsum, 17);
    }
    let roll = random_below(rng, total);
    match pick_weighted(&weights, roll) {
        Some(i) => {
            assert(statuses@[i as int] == status_table()[i as int].0);
            statuses[i]
        },
        None => {
            assert(status_table()[0].0 == 200);
            200
        },
    }
}

/// A random piece (see [`PieceV`]).
fn draw_piece(p: &Piece, rng: &mut rand::rngs::ThreadRng) -> (r: Vec<char>)
    requires
        piece_sane(p@),
    ensures
        piece_ok(r@, p@),
{
    match p {
        Piece::Lit(s) => chars_of(s),
        Piece::Rand(n) => random_str(rng, *n),
        Piece::Upper(n) => random_upper(rng, *n),
        Piece::Int(lo, hi) => {
            let v = random_between(rng, *lo, *hi);
            let t = nat_to_text(v as u64);
            assert(piece_ok(t@, p@)) by {
                assert(t@ == nat_text(v as nat));
            }
            t
        },
        Piece::Pad(lo, hi, w) => {
            let v = random_between(rng, *lo, *hi);
            let t = padded_text(v as u64, *w);
            assert(piece_ok(t@, p@)) by {
                assert(t@ == padded(v as nat, *w as nat));
            }
            t
        },
        Piece::Dec(lo, hi, d) => {
            let v = random_between(rng, *lo, *hi);
            let t = dec_to_text(v as u64, *d);
            assert(piece_ok(t@, p@)) by {
                assert(t@ == dec_text(v as nat, *d as nat));
            }
            t
        },
        Piece::Sign => {
            proof {
                reveal_strlit("+");
                reveal_strlit("-");
            }
            if random_half(rng) {
                chars_of("+")
            } else {
                chars_of("-")
            }
        },
    }
}

/// A random value of a placeholder with key `k` (see [`value_ok`]).
fn draw_value(k: &Vec<char>, kind: &Kind, rng: &mut rand::rngs::ThreadRng) -> (r: Vec<char>)
    requires
        kind_sane(kind@),
    ensures
        value_ok(k@, kind@, r@),
{
    match kind {
        Kind::Pieces(ps) => {
            let ghost pv = ps@.map_values(|p: Piece| p@);
            assert(kind@ == KindV::Pieces(pv));
            assert(kind_sane(KindV::Pieces(pv)));
            assert(pieces_sane(pv));
            let mut out: Vec<char> = Vec::new();
            let ghost mut parts: Seq<Seq<char>> = Seq::empty();
            let mut i: usize = 0;
            while i < ps.len()
                invariant
                    i <= ps.len(),
                    pv == ps@.map_values(|p: Piece| p@),
                    pieces_sane(pv),
                    parts.len() == i,
                    out@ == concat(parts),
                    forall|m: int| 0 <= m < i ==> piece_ok(#[trigger] parts[m], pv[m]),
                decreases ps.len() - i,
            {
                assert(pv[i as int] == ps@[i as int]@);
                assert(piece_sane(pv[i as int]));
                let s = draw_piece(&ps[i], rng);
                let ghost before = parts;
                crate::text::push_range(&mut out, &s, 0, s.len());
                proof {
                    parts = parts.push(s@);
                    assert(s@.subrange(0, s.len() as int) =~= s@);
                    assert(parts.drop_last() =~= before);
                    assert forall|m: int| 0 <= m < i + 1 implies piece_ok(#[trigger] parts[m], pv[m]) by {
                        if m < i {
                            assert(parts[m] == before[m]);
                        }
                    }
                }
                i = i + 1;
            }
            assert(fits(out@, pv));
            out
        },
        Kind::Pick(l) => {
            let i = random_below(rng, l.len() as u64) as usize;
            let v = chars_of(l[i]);
            assert(strs_view(l@)[i as int] == v@);
            v
        },
        Kind::Status => {
            let s = random_status(rng);
            let v = nat_to_text(s as u64);
            let ghost i = choose|i: int| 0 <= i < status_table().len() && s == #[trigger] status_table()[i].0;
            assert(v@ == nat_text(status_table()[i].0 as nat));
            v
        },
        Kind::Date => {
            let n = now();
            let d = random_between(rng, 1, 30);
            let t = Timestamp { secs: n.secs + d * 86400, nanos: n.nanos };
            proof {
                reveal_strlit("%Y-%m-%d");
            }
            let v = chars_of(format_ts(t, "%Y-%m-%d").as_str());
            assert(v@ == spec_format(t.secs, t.nanos, "%Y-%m-%d"@));
            v
        },
        Kind::Unknown => {
            let mut v: Vec<char> = Vec::new();
            v.push('{');
            crate::text::push_range(&mut v, k, 0, k.len());
            v.push('}');
            proof {
                reveal_strlit("{");
                reveal_strlit("}");
                assert(k@.subrange(0, k.len() as int) =~= k@);
                assert(v@ =~= "{"@ + k@ + "}"@);
            }
            v
        },
    }
}

// ---------------------------------------------------------------------------
// Filling templates
// ---------------------------------------------------------------------------

/// Just past the first `}` from `j` on, or the end of the text.
pub open spec fn close_from(t: Seq<char>, j: int) -> int
    decreases t.len() - j,
{
    if j < 0 || j >= t.len() {
        t.len() as int
    } else if t[j] == '}' {
        j + 1
    } else {
        close_from(t, j + 1)
    }
}

/// The placeholder that opens at `i` ends at [`close_from`]; its key lies between
/// the braces (a `{` without a closing `}` takes the rest of the text but its last
/// character). Filling fails on a `{` that is the last character of the text.
pub open spec fn scan_ok(t: Seq<char>, i: int) -> bool
    decreases t.len() - i,
{
    if i < 0 || i >= t.len() {
        true
    } else if t[i] == '{' {
        let e = close_from(t, i);
        if i + 2 <= e <= t.len() {
            scan_ok(t, e)
        } else {
            false
        }
    } else {
        scan_ok(t, i + 1)
    }
}

/// Every `{` has a `}` somewhere after it.
pub open spec fn braces_closed(t: Seq<char>) -> bool {
    forall|i: int|
        0 <= i < t.len() && t[i] == '{' ==> exists|k: int| i < k < t.len() && #[trigger] t[k] == '}'
}

proof fn lemma_close_from(t: Seq<char>, j: int, k: int)
    requires
        0 <= j <= k < t.len(),
        t[k] == '}',
    ensures
        j + 1 <= close_from(t, j) <= k + 1,
    decreases t.len() - j,
{
    if t[j] != '}' {
        lemma_close_from(t, j + 1, k);
    }
}

proof fn lemma_scan_closed(t: Seq<char>, i: int)
    requires
        0 <= i,
        braces_closed(t),
    ensures
        scan_ok(t, i),
    decreases t.len() - i,
{
    if i < t.len() {
        if t[i] == '{' {
            let k = choose|k: int| i < k < t.len() && #[trigger] t[k] == '}';
            lemma_close_from(t, i + 1, k);
            assert(close_from(t, i) == close_from(t, i + 1));
            lemma_scan_closed(t, close_from(t, i));
        } else {
            lemma_scan_closed(t, i + 1);
        }
    }
}

/// A template in which every `{` has a later `}` always fills: [`fill_template`]
/// gives `Some` for it.
pub proof fn lemma_closed_template_fills(t: Seq<char>)
    requires
        braces_closed(t),
    ensures
        scan_ok(t, 0),
{
    lemma_scan_closed(t, 0);
}

/// The keys of the placeholders from `i` on.
pub open spec fn keys_from(t: Seq<char>, i: int) -> Seq<Seq<char>>
    decreases t.len() - i,
{
    if i < 0 || i >= t.len() {
        Seq::empty()
    } else if t[i] == '{' {
        let e = close_from(t, i);
        if i + 2 <= e <= t.len() {
            seq![t.subrange(i + 1, e - 1)] + keys_from(t, e)
        } else {
            Seq::empty()
        }
    } else {
        keys_from(t, i + 1)
    }
}

/// The text from `i` on with the placeholders replaced by `vals` from `j` on.
pub open spec fn render(t: Seq<char>, i: int, vals: Seq<Seq<char>>, j: int) -> Seq<char>
    decreases t.len() - i,
{
    if i < 0 || i >= t.len() {
        Seq::empty()
    } else if t[i] == '{' {
        let e = close_from(t, i);
        if i + 2 <= e <= t.len() {
            vals[j] + render(t, e, vals, j + 1)
        } else {
            Seq::empty()
        }
    } else {
        seq![t[i]] + render(t, i + 1, vals, j)
    }
}

/// The text is a filling of the template: each placeholder replaced by a possible value
/// for its key.
pub open spec fn filled(t: Seq<char>, r: Seq<char>) -> bool {
    exists|vals: Seq<Seq<char>>|
        vals.len() == keys_from(t, 0).len() && (forall|j: int|
            0 <= j < vals.len() ==> value_ok(
                keys_from(t, 0)[j],
                key_kind(keys_from(t, 0)[j]),
                #[trigger] vals[j],
            )) && r == render(t, 0, vals, 0)
}

fn close_at(t: &Vec<char>, i: usize) -> (r: usize)
    requires
        i <= t.len(),
    ensures
        r as int == close_from(t@, i as int),
        i <= r <= t.len(),
{
    let mut j = i;
    while j < t.len() && t[j] != '}'
        invariant
            i <= j <= t.len(),
            close_from(t@, i as int) == close_from(t@, j as int),
        decreases t.len() - j,
    {
        j = j + 1;
    }
    if j < t.len() {
        j + 1
    } else {
        j
    }
}

proof fn lemma_kind_sane(k: Seq<char>)
    ensures
        kind_sane(key_kind(k)),
{
}

/// Whether the template can be filled (see [`scan_ok`]).
fn scans(t: &Vec<char>) -> (r: bool)
    ensures
        r == scan_ok(t@, 0),
{
    let mut i: usize = 0;
    while i < t.len()
        invariant
            i <= t.len(),
            scan_ok(t@, 0) == scan_ok(t@, i as int),
        decreases t.len() - i,
    {
        if t[i] == '{' {
            let e = close_at(t, i);
            if e - i < 2 {
                return false;
            }
            i = e;
        } else {
            i = i + 1;
        }
    }
    true
}

/// Fill a message template: each `{key}` is replaced by a random value for the key
/// (see [`key_kind`]), any other character is kept; `None` for a template whose last
/// character opens a placeholder.
pub fn fill_template(template: &str, rng: &mut rand::rngs::ThreadRng) -> (r: Option<String>)
    ensures
        match r {
            Some(s) => scan_ok(template@, 0) && filled(template@, s@),
            None => !scan_ok(template@, 0),
        },
{
    let t = chars_of(template);
    if !scans(&t) {
        return None;
    }
    let mut out: Vec<char> = Vec::new();
    let ghost mut vals: Seq<Seq<char>> = Seq::empty();
    let ghost keys = keys_from(t@, 0);
    let mut i: usize = 0;
    let mut j: usize = 0;
    proof {
        assert(keys =~= Seq::<Seq<char>>::empty() + keys_from(t@, 0));
    }
    while i < t.len()
        invariant
            t@ == template@,
            i <= t.len(),
            j == vals.len(),
            j <= i,
            scan_ok(t@, i as int),
            keys == keys_from(t@, 0),
            keys == keys.take(j as int) + keys_from(t@, i as int),
            j <= keys.len(),
            forall|m: int| 0 <= m < j ==> value_ok(keys[m], key_kind(keys[m]), #[trigger] vals[m]),
            forall|v: Seq<Seq<char>>|
                v.len() >= j && v.take(j as int) == vals ==> #[trigger] render(t@, 0, v, 0) == out@ + render(
                    t@,
                    i as int,
                    v,
                    j as int,
                ),
        decreases t.len() - i,
    {
        if t[i] == '{' {
            let e = close_at(&t, i);
            let key = crate::text::slice(&t, i + 1, e - 1);
            let kind = kind_of(&key);
            proof {
                lemma_kind_sane(key@);
                assert(keys_from(t@, i as int) == seq![key@] + keys_from(t@, e as int));
                assert(keys[j as int] == key@) by {
                    assert(keys.take(j as int).len() == j);
                }
                assert(keys.take(j + 1) =~= keys.take(j as int).push(key@));
                assert(keys =~= keys.take(j + 1) + keys_from(t@, e as int));
            }
            let val = draw_value(&key, &kind, rng);
            let ghost old_out = out@;
            let ghost old_vals = vals;
            crate::text::push_range(&mut out, &val, 0, val.len());
            proof {
                assert(val@.subrange(0, val.len() as int) =~= val@);
                vals = vals.push(val@);
                assert forall|v: Seq<Seq<char>>|
                    v.len() >= j + 1 && v.take(j + 1) == vals implies #[trigger] render(t@, 0, v, 0) == out@ + render(
                    t@,
                    e as int,
                    v,
                    j + 1,
                ) by {
                    assert(v.take(j as int) =~= v.take(j + 1).take(j as int));
                    assert(v.take(j as int) == old_vals);
                    assert(render(t@, 0, v, 0) == old_out + render(t@, i as int, v, j as int));
                    assert(v[j as int] == v.take(j + 1)[j as int]);
                    assert(render(t@, i as int, v, j as int) == v[j as int] + render(t@, e as int, v, j + 1));
                    assert(old_out + (val@ + render(t@, e as int, v, j + 1)) =~= out@ + render(t@, e as int, v, j + 1));
                }
                assert forall|m: int| 0 <= m < j + 1 implies value_ok(keys[m], key_kind(keys[m]), #[trigger] vals[m]) by {
                    if m < j {
                        assert(vals[m] == old_vals[m]);
                    }
                }
            }
            i = e;
            j = j + 1;
        } else {
            let c = t[i];
            let ghost old_out = out@;
            out.push(c);
            proof {
                assert(keys_from(t@, i as int) == keys_from(t@, i + 1));
                assert forall|v: Seq<Seq<char>>|
                    v.len() >= j && v.take(j as int) == vals implies #[trigger] render(t@, 0, v, 0) == out@ + render(
                    t@,
                    i + 1,
                    v,
                    j as int,
                ) by {
                    assert(render(t@, 0, v, 0) == old_out + render(t@, i as int, v, j as int));
                    assert(render(t@, i as int, v, j as int) == seq![c] + render(t@, i + 1, v, j as int));
                    assert(old_out + (seq![c] + render(t@, i + 1, v, j as int)) =~= out@ + render(t@, i + 1, v, j as int));
                }
            }
            i = i + 1;
        }
    }
    proof {
        assert(keys.take(j as int) =~= keys);
        assert(vals.take(j as int) =~= vals);
        assert(render(t@, 0, vals, 0) == out@ + render(t@, i as int, vals, j as int));
        assert(out@ + Seq::<char>::empty() =~= out@);
    }
    Some(string_of(&out))
}

// ---------------------------------------------------------------------------
// Services and levels
// ---------------------------------------------------------------------------

/// A simulated service source.
#[derive(Debug, Clone)]
pub struct Service {
    pub name: &'static str,
    pub weight: u32,
    pub messages: Vec<&'static str>,
    /// (weight, numeric log level) pairs.
    pub level_weights: Vec<(u32, u32)>,
}

/// The mathematical value of a [`Service`].
pub struct ServiceV {
    pub name: Seq<char>,
    pub weight: u32,
    pub messages: Seq<Seq<char>>,
    pub level_weights: Seq<(u32, u32)>,
}

pub open spec fn service_view(s: Service) -> ServiceV {
    ServiceV {
        name: s.name@,
        weight: s.weight,
        messages: strs_view(s.messages@),
        level_weights: s.level_weights@,
    }
}

pub open spec fn services_view(v: Seq<Service>) -> Seq<ServiceV> {
    v.map_values(|s: Service| service_view(s))
}

/// The name of a numeric level (unknown numbers read as INFO).
pub open spec fn gen_level_name(l: u32) -> Seq<char> {
    if l == 0 {
        "TRACE"@
    } else if l == 1 {
        "DEBUG"@
    } else if l == 2 {
        "INFO"@
    } else if l == 3 {
        "WARN"@
    } else if l == 4 {
        "ERROR"@
    } else if l == 5 {
        "FATAL"@
    } else {
        "INFO"@
    }
}

/// The name of a numeric level.
pub fn level_name(l: u32) -> (r: &'static str)
    ensures
        r@ == gen_level_name(l),
{
    if l == 0 {
        "TRACE"
    } else if l == 1 {
        "DEBUG"
    } else if l == 2 {
        "INFO"
    } else if l == 3 {
        "WARN"
    } else if l == 4 {
        "ERROR"
    } else if l == 5 {
        "FATAL"
    } else {
        "INFO"
    }
}

pub open spec fn list_methods() -> Seq<Seq<char>> {
    seq!["GET"@, "POST"@, "PUT"@, "DELETE"@, "PATCH"@]
}

pub open spec fn list_paths() -> Seq<Seq<char>> {
    seq!["/api/v1/users"@, "/api/v1/orders"@, "/api/v1/products"@, "/api/v1/auth/login"@, "/api/v1/auth/refresh"@, "/api/v1/payments"@, "/api/v1/checkout"@, "/api/v1/search"@, "/api/v1/notifications"@, "/api/v2/inventory"@, "/health"@, "/metrics"@, "/api/v1/webhooks/stripe"@, "/api/v1/webhooks/github"@, "/api/v1/export"@]
}

pub open spec fn list_ciphers() -> Seq<Seq<char>> {
    seq!["TLS_AES_128_GCM_SHA256"@, "TLS_AES_256_GCM_SHA384"@, "TLS_CHACHA20_POLY1305_SHA256"@]
}

pub open spec fn list_fields() -> Seq<Seq<char>> {
    seq!["email"@, "username"@, "password"@, "role"@, "age"@, "phone"@, "address"@]
}

pub open spec fn list_reasons() -> Seq<Seq<char>> {
    seq!["invalid format"@, "already exists"@, "not found"@, "required field missing"@, "too short"@, "duplicate entry"@, "permission denied"@]
}

pub open spec fn list_actions() -> Seq<Seq<char>> {
    seq!["opened"@, "closed"@, "established"@, "terminated"@]
}

pub open spec fn list_auth_methods() -> Seq<Seq<char>> {
    seq!["password"@, "oauth2"@, "saml"@, "ldap"@, "mfa"@, "api_key"@, "sso"@]
}

pub open spec fn list_scopes() -> Seq<Seq<char>> {
    seq!["read:users"@, "write:orders"@, "admin"@, "read:payments"@, "write:profile"@]
}

pub open spec fn list_channels() -> Seq<Seq<char>> {
    seq!["email"@, "sms"@, "authenticator"@, "push"@]
}

pub open spec fn list_providers() -> Seq<Seq<char>> {
    seq!["google"@, "github"@, "microsoft"@, "facebook"@, "apple"@, "stripe"@, "paypal"@]
}

pub open spec fn list_roles() -> Seq<Seq<char>> {
    seq!["admin"@, "editor"@, "viewer"@, "moderator"@, "user"@]
}

pub open spec fn list_prefs() -> Seq<Seq<char>> {
    seq!["enabled"@, "disabled"@, "dark_mode"@, "notifications_on"@, "language=en"@]
}

pub open spec fn list_queries() -> Seq<Seq<char>> {
    seq!["john"@, "test"@, "admin"@, "error"@, "order123"@, "recent"@]
}

pub open spec fn list_plans() -> Seq<Seq<char>> {
    seq!["free"@, "pro"@, "enterprise"@, "team"@]
}

pub open spec fn list_devices() -> Seq<Seq<char>> {
    seq!["Chrome/Windows"@, "Safari/macOS"@, "Firefox/Linux"@, "Mobile iOS"@, "Mobile Android"@]
}

pub open spec fn list_export_types() -> Seq<Seq<char>> {
    seq!["csv"@, "json"@, "pdf"@, "xlsx"@]
}

pub open spec fn list_currencies() -> Seq<Seq<char>> {
    seq!["USD"@, "EUR"@, "GBP"@, "JPY"@, "CAD"@]
}

pub open spec fn list_brands() -> Seq<Seq<char>> {
    seq!["Visa"@, "Mastercard"@, "Amex"@, "Discover"@]
}

pub open spec fn list_outcomes() -> Seq<Seq<char>> {
    seq!["success"@, "completed"@, "failed"@, "pending"@, "approved"@, "declined"@, "timeout"@]
}

pub open spec fn list_carriers() -> Seq<Seq<char>> {
    seq!["UPS"@, "FedEx"@, "USPS"@, "DHL"@]
}

pub open spec fn list_states() -> Seq<Seq<char>> {
    seq!["pending"@, "confirmed"@, "processing"@, "shipped"@, "delivered"@, "cancelled"@, "refunded"@]
}

pub open spec fn list_ops() -> Seq<Seq<char>> {
    seq!["get"@, "set"@, "delete"@, "exists"@, "ttl"@, "incr"@]
}

pub open spec fn list_policies() -> Seq<Seq<char>> {
    seq!["LRU"@, "LFU"@, "TTL"@, "FIFO"@]
}

pub open spec fn list_types() -> Seq<Seq<char>> {
    seq!["string"@, "list"@, "hash"@, "set"@, "zset"@]
}

pub open spec fn list_query_prefixes() -> Seq<Seq<char>> {
    seq!["SELECT * FROM users"@, "INSERT INTO orders"@, "UPDATE inventory SET"@, "DELETE FROM sessions"@, "SELECT u.name, o.total FROM"@]
}

pub open spec fn list_tables() -> Seq<Seq<char>> {
    seq!["users"@, "orders"@, "products"@, "sessions"@, "audit_log"@, "payments"@]
}

fn exec_list_methods() -> (r: Vec<&'static str>)
    ensures
        strs_view(r@) == list_methods(),
{
    let r = vec!["GET", "POST", "PUT", "DELETE", "PATCH"];
    assert(strs_view(r@) =~= list_methods());
    r
}

fn exec_list_paths() -> (r: Vec<&'static str>)
    ensures
        strs_view(r@) == list_paths(),
{
    let r = vec!["/api/v1/users", "/api/v1/orders", "/api/v1/products", "/api/v1/auth/login", "/api/v1/auth/refresh", "/api/v1/payments", "/api/v1/checkout", "/api/v1/search", "/api/v1/notifications", "/api/v2/inventory", "/health", "/metrics", "/api/v1/webhooks/stripe", "/api/v1/webhooks/github", "/api/v1/export"];
    assert(strs_view(r@) =~= list_paths());
    r
}

fn exec_list_ciphers() -> (r: Vec<&'static str>)
    ensures
        strs_view(r@) == list_ciphers(),
{
    let r = vec!["TLS_AES_128_GCM_SHA256", "TLS_AES_256_GCM_SHA384", "TLS_CHACHA20_POLY1305_SHA256"];
    assert(strs_view(r@) =~= list_ciphers());
    r
}

fn exec_list_fields() -> (r: Vec<&'static str>)
    ensures
        strs_view(r@) == list_fields(),
{
    let r = vec!["email", "username", "password", "role", "age", "phone", "address"];
    assert(strs_view(r@) =~= list_fields());
    r
}

fn exec_list_reasons() -> (r: Vec<&'static str>)
    ensures
        strs_view(r@) == list_reasons(),
{
    let r = vec!["invalid format", "already exists", "not found", "required field missing", "too short", "duplicate entry", "permission denied"];
    assert(strs_view(r@) =~= list_reasons());
    r
}

fn exec_list_actions() -> (r: Vec<&'static str>)
    ensures
        strs_view(r@) == list_actions(),
{
    let r = vec!["opened", "closed", "established", "terminated"];
    assert(strs_view(r@) =~= list_actions());
    r
}

fn exec_list_auth_methods() -> (r: Vec<&'static str>)
    ensures
        strs_view(r@) == list_auth_methods(),
{
    let r = vec!["password", "oauth2", "saml", "ldap", "mfa", "api_key", "sso"];
    assert(strs_view(r@) =~= list_auth_methods());
    r
}

fn exec_list_scopes() -> (r: Vec<&'static str>)
    ensures
        strs_view(r@) == list_scopes(),
{
    let r = vec!["read:users", "write:orders", "admin", "read:payments", "write:profile"];
    assert(strs_view(r@) =~= list_scopes());
    r
}

fn exec_list_channels() -> (r: Vec<&'static str>)
    ensures
        strs_view(r@) == list_channels(),
{
    let r = vec!["email", "sms", "authenticator", "push"];
    assert(strs_view(r@) =~= list_channels());
    r
}

fn exec_list_providers() -> (r: Vec<&'static str>)
    ensures
        strs_view(r@) == list_providers(),
{
    let r = vec!["google", "github", "microsoft", "facebook", "apple", "stripe", "paypal"];
    assert(strs_view(r@) =~= list_providers());
    r
}

fn exec_list_roles() -> (r: Vec<&'static str>)
    ensures
        strs_view(r@) == list_roles(),
{
    let r = vec!["admin", "editor", "viewer", "moderator", "user"];
    assert(strs_view(r@) =~= list_roles());
    r
}

fn exec_list_prefs() -> (r: Vec<&'static str>)
    ensures
        strs_view(r@) == list_prefs(),
{
    let r = vec!["enabled", "disabled", "dark_mode", "notifications_on", "language=en"];
    assert(strs_view(r@) =~= list_prefs());
    r
}

fn exec_list_queries() -> (r: Vec<&'static str>)
    ensures
        strs_view(r@) == list_queries(),
{
    let r = vec!["john", "test", "admin", "error", "order123", "recent"];
    assert(strs_view(r@) =~= list_queries());
    r
}

fn exec_list_plans() -> (r: Vec<&'static str>)
    ensures
        strs_view(r@) == list_plans(),
{
    let r = vec!["free", "pro", "enterprise", "team"];
    assert(strs_view(r@) =~= list_plans());
    r
}

fn exec_list_devices() -> (r: Vec<&'static str>)
    ensures
        strs_view(r@) == list_devices(),
{
    let r = vec!["Chrome/Windows", "Safari/macOS", "Firefox/Linux", "Mobile iOS", "Mobile Android"];
    assert(strs_view(r@) =~= list_devices());
    r
}

fn exec_list_export_types() -> (r: Vec<&'static str>)
    ensures
        strs_view(r@) == list_export_types(),
{
    let r = vec!["csv", "json", "pdf", "xlsx"];
    assert(strs_view(r@) =~= list_export_types());
    r
}

fn exec_list_currencies() -> (r: Vec<&'static str>)
    ensures
        strs_view(r@) == list_currencies(),
{
    let r = vec!["USD", "EUR", "GBP", "JPY", "CAD"];
    assert(strs_view(r@) =~= list_currencies());
    r
}

fn exec_list_brands() -> (r: Vec<&'static str>)
    ensures
        strs_view(r@) == list_brands(),
{
    let r = vec!["Visa", "Mastercard", "Amex", "Discover"];
    assert(strs_view(r@) =~= list_brands());
    r
}

fn exec_list_outcomes() -> (r: Vec<&'static str>)
    ensures
        strs_view(r@) == list_outcomes(),
{
    let r = vec!["success", "completed", "failed", "pending", "approved", "declined", "timeout"];
    assert(strs_view(r@) =~= list_outcomes());
    r
}

fn exec_list_carriers() -> (r: Vec<&'static str>)
    ensures
        strs_view(r@) == list_carriers(),
{
    let r = vec!["UPS", "FedEx", "USPS", "DHL"];
    assert(strs_view(r@) =~= list_carriers());
    r
}

fn exec_list_states() -> (r: Vec<&'static str>)
    ensures
        strs_view(r@) == list_states(),
{
    let r = vec!["pending", "confirmed", "processing", "shipped", "delivered", "cancelled", "refunded"];
    assert(strs_view(r@) =~= list_states());
    r
}

fn exec_list_ops() -> (r: Vec<&'static str>)
    ensures
        strs_view(r@) == list_ops(),
{
    let r = vec!["get", "set", "delete", "exists", "ttl", "incr"];
    assert(strs_view(r@) =~= list_ops());
    r
}

fn exec_list_policies() -> (r: Vec<&'static str>)
    ensures
        strs_view(r@) == list_policies(),
{
    let r = vec!["LRU", "LFU", "TTL", "FIFO"];
    assert(strs_view(r@) =~= list_policies());
    r
}

fn exec_list_types() -> (r: Vec<&'static str>)
    ensures
        strs_view(r@) == list_types(),
{
    let r = vec!["string", "list", "hash", "set", "zset"];
    assert(strs_view(r@) =~= list_types());
    r
}

fn exec_list_query_prefixes() -> (r: Vec<&'static str>)
    ensures
        strs_view(r@) == list_query_prefixes(),
{
    let r = vec!["SELECT * FROM users", "INSERT INTO orders", "UPDATE inventory SET", "DELETE FROM sessions", "SELECT u.name, o.total FROM"];
    assert(strs_view(r@) =~= list_query_prefixes());
    r
}

fn exec_list_tables() -> (r: Vec<&'static str>)
    ensures
        strs_view(r@) == list_tables(),
{
    let r = vec!["users", "orders", "products", "sessions", "audit_log", "payments"];
    assert(strs_view(r@) =~= list_tables());
    r
}

/// What a placeholder key is filled with; an unknown key is written back in braces.
pub open spec fn key_kind(k: Seq<char>) -> KindV {
    if k == "dur"@ || k == "lat"@ || k == "latency"@ || k == "lag"@ {
        KindV::Pieces(seq![PieceV::Int(1, 5000)])
    } else if k == "method"@ {
        KindV::Pick(list_methods())
    } else if k == "path"@ {
        KindV::Pick(list_paths())
    } else if k == "status"@ {
        KindV::Status
    } else if k == "client"@ || k == "user"@ || k == "from"@ || k == "to"@ || k == "customer"@ || k == "actor"@ || k == "recipient"@ {
        KindV::Pieces(seq![PieceV::Lit("user_"@), PieceV::Rand(8)])
    } else if k == "upstream"@ {
        KindV::Pieces(seq![PieceV::Lit("svc-"@), PieceV::Rand(4), PieceV::Lit("-"@), PieceV::Int(1, 99)])
    } else if k == "version"@ {
        KindV::Pieces(seq![PieceV::Lit("TLSv1."@), PieceV::Int(2, 3)])
    } else if k == "cipher"@ {
        KindV::Pick(list_ciphers())
    } else if k == "field"@ {
        KindV::Pick(list_fields())
    } else if k == "reason"@ || k == "details"@ {
        KindV::Pick(list_reasons())
    } else if k == "size"@ || k == "compressed"@ {
        KindV::Pieces(seq![PieceV::Int(50, 50000)])
    } else if k == "ratio"@ {
        KindV::Pieces(seq![PieceV::Dec(100, 900, 1)])
    } else if k == "action"@ {
        KindV::Pick(list_actions())
    } else if k == "ip"@ {
        KindV::Pieces(seq![PieceV::Int(1, 254), PieceV::Lit("."@), PieceV::Int(0, 254), PieceV::Lit("."@), PieceV::Int(0, 254), PieceV::Lit("."@), PieceV::Int(1, 254)])
    } else if k == "email"@ {
        KindV::Pieces(seq![PieceV::Rand(8), PieceV::Lit("@example.com"@)])
    } else if k == "auth_method"@ {
        KindV::Pick(list_auth_methods())
    } else if k == "hours"@ {
        KindV::Pieces(seq![PieceV::Int(1, 72)])
    } else if k == "limit"@ {
        KindV::Pieces(seq![PieceV::Int(10, 1000)])
    } else if k == "scope"@ {
        KindV::Pick(list_scopes())
    } else if k == "channel"@ {
        KindV::Pick(list_channels())
    } else if k == "address"@ {
        KindV::Pieces(seq![PieceV::Rand(8), PieceV::Lit("@example.com"@)])
    } else if k == "provider"@ || k == "issuer"@ || k == "gateway"@ {
        KindV::Pick(list_providers())
    } else if k == "attempts"@ {
        KindV::Pieces(seq![PieceV::Int(1, 10)])
    } else if k == "role"@ {
        KindV::Pick(list_roles())
    } else if k == "kid"@ {
        KindV::Pieces(seq![PieceV::Rand(8)])
    } else if k == "value"@ || k == "prefs"@ {
        KindV::Pick(list_prefs())
    } else if k == "query"@ {
        KindV::Pick(list_queries())
    } else if k == "count"@ || k == "active"@ || k == "idle"@ || k == "waiting"@ || k == "hits"@ || k == "keys_affected"@ || k == "rows"@ || k == "available"@ || k == "reserved"@ || k == "items"@ || k == "attempt"@ || k == "max"@ {
        KindV::Pieces(seq![PieceV::Int(1, 1000)])
    } else if k == "w"@ || k == "h"@ {
        KindV::Pieces(seq![PieceV::Int(32, 1920)])
    } else if k == "plan"@ {
        KindV::Pick(list_plans())
    } else if k == "device"@ {
        KindV::Pick(list_devices())
    } else if k == "export_type"@ {
        KindV::Pick(list_export_types())
    } else if k == "order"@ || k == "sub"@ {
        KindV::Pieces(seq![PieceV::Lit("ORD-"@), PieceV::Int(10000, 99999)])
    } else if k == "total"@ || k == "amount"@ || k == "from_amt"@ || k == "to_amt"@ {
        KindV::Pieces(seq![PieceV::Dec(50, 999999, 2)])
    } else if k == "currency"@ || k == "from_ccy"@ || k == "to_ccy"@ {
        KindV::Pick(list_currencies())
    } else if k == "rate"@ {
        KindV::Pieces(seq![PieceV::Dec(0, 200, 2), PieceV::Lit("00"@)])
    } else if k == "txn"@ {
        KindV::Pieces(seq![PieceV::Lit("txn_"@), PieceV::Rand(16)])
    } else if k == "last4"@ {
        KindV::Pieces(seq![PieceV::Pad(0, 9998, 4)])
    } else if k == "brand"@ {
        KindV::Pick(list_brands())
    } else if k == "result"@ || k == "outcome"@ || k == "state"@ {
        KindV::Pick(list_outcomes())
    } else if k == "code"@ || k == "score"@ {
        KindV::Pieces(seq![PieceV::Int(100, 999)])
    } else if k == "carrier"@ {
        KindV::Pick(list_carriers())
    } else if k == "inv"@ {
        KindV::Pieces(seq![PieceV::Lit("INV-"@), PieceV::Int(10000, 99999)])
    } else if k == "sku"@ {
        KindV::Pieces(seq![PieceV::Lit("SKU-"@), PieceV::Upper(6)])
    } else if k == "old"@ || k == "new"@ || k == "old_s"@ || k == "new_s"@ {
        KindV::Pick(list_states())
    } else if k == "date"@ {
        KindV::Date
    } else if k == "delta"@ {
        KindV::Pieces(seq![PieceV::Sign, PieceV::Dec(100, 100000, 2)])
    } else if k == "balance"@ {
        KindV::Pieces(seq![PieceV::Dec(0, 5000000, 2)])
    } else if k == "op"@ {
        KindV::Pick(list_ops())
    } else if k == "key"@ || k == "keyset"@ {
        KindV::Pieces(seq![PieceV::Rand(4), PieceV::Lit(":"@), PieceV::Rand(8)])
    } else if k == "policy"@ {
        KindV::Pick(list_policies())
    } else if k == "node"@ || k == "endpoint"@ || k == "host"@ {
        KindV::Pieces(seq![PieceV::Rand(6), PieceV::Lit("-"@), PieceV::Int(0, 9), PieceV::Lit(".cluster.local"@)])
    } else if k == "port"@ {
        KindV::Pieces(seq![PieceV::Int(1024, 65535)])
    } else if k == "pattern"@ {
        KindV::Pieces(seq![PieceV::Rand(4), PieceV::Lit(":*"@)])
    } else if k == "type"@ || k == "data_type"@ {
        KindV::Pick(list_types())
    } else if k == "query_prefix"@ {
        KindV::Pick(list_query_prefixes())
    } else if k == "migration"@ {
        KindV::Pieces(seq![PieceV::Lit("V"@), PieceV::Int(1, 99), PieceV::Lit("__"@), PieceV::Rand(10)])
    } else if k == "table"@ {
        KindV::Pick(list_tables())
    } else if k == "primary_lsn"@ || k == "replica_lsn"@ {
        KindV::Pieces(seq![PieceV::Rand(8), PieceV::Lit("/"@), PieceV::Rand(8)])
    } else if k == "statements"@ {
        KindV::Pieces(seq![PieceV::Int(1, 20)])
    } else {
        KindV::Unknown
    }
}

fn kind_of(k: &Vec<char>) -> (r: Kind)
    ensures
        r@ == key_kind(k@),
{
    if eq_str(k, "dur") || eq_str(k, "lat") || eq_str(k, "latency") || eq_str(k, "lag") {
        {
        let ps = vec![Piece::Int(1, 5000)];
        assert(ps@.map_values(|p: Piece| p@) =~= seq![PieceV::Int(1, 5000)]);
        Kind::Pieces(ps)
        }
    } else if eq_str(k, "method") {
        Kind::Pick(exec_list_methods())
    } else if eq_str(k, "path") {
        Kind::Pick(exec_list_paths())
    } else if eq_str(k, "status") {
        Kind::Status
    } else if eq_str(k, "client") || eq_str(k, "user") || eq_str(k, "from") || eq_str(k, "to") || eq_str(k, "customer") || eq_str(k, "actor") || eq_str(k, "recipient") {
        {
        let ps = vec![Piece::Lit("user_"), Piece::Rand(8)];
        assert(ps@.map_values(|p: Piece| p@) =~= seq![PieceV::Lit("user_"@), PieceV::Rand(8)]);
        Kind::Pieces(ps)
        }
    } else if eq_str(k, "upstream") {
        {
        let ps = vec![Piece::Lit("svc-"), Piece::Rand(4), Piece::Lit("-"), Piece::Int(1, 99)];
        assert(ps@.map_values(|p: Piece| p@) =~= seq![PieceV::Lit("svc-"@), PieceV::Rand(4), PieceV::Lit("-"@), PieceV::Int(1, 99)]);
        Kind::Pieces(ps)
        }
    } else if eq_str(k, "version") {
        {
        let ps = vec![Piece::Lit("TLSv1."), Piece::Int(2, 3)];
        assert(ps@.map_values(|p: Piece| p@) =~= seq![PieceV::Lit("TLSv1."@), PieceV::Int(2, 3)]);
        Kind::Pieces(ps)
        }
    } else if eq_str(k, "cipher") {
        Kind::Pick(exec_list_ciphers())
    } else if eq_str(k, "field") {
        Kind::Pick(exec_list_fields())
    } else if eq_str(k, "reason") || eq_str(k, "details") {
        Kind::Pick(exec_list_reasons())
    } else if eq_str(k, "size") || eq_str(k, "compressed") {
        {
        let ps = vec![Piece::Int(50, 50000)];
        assert(ps@.map_values(|p: Piece| p@) =~= seq![PieceV::Int(50, 50000)]);
        Kind::Pieces(ps)
        }
    } else if eq_str(k, "ratio") {
        {
        let ps = vec![Piece::Dec(100, 900, 1)];
        assert(ps@.map_values(|p: Piece| p@) =~= seq![PieceV::Dec(100, 900, 1)]);
        Kind::Pieces(ps)
        }
    } else if eq_str(k, "action") {
        Kind::Pick(exec_list_actions())
    } else if eq_str(k, "ip") {
        {
        let ps = vec![Piece::Int(1, 254), Piece::Lit("."), Piece::Int(0, 254), Piece::Lit("."), Piece::Int(0, 254), Piece::Lit("."), Piece::Int(1, 254)];
        assert(ps@.map_values(|p: Piece| p@) =~= seq![PieceV::Int(1, 254), PieceV::Lit("."@), PieceV::Int(0, 254), PieceV::Lit("."@), PieceV::Int(0, 254), PieceV::Lit("."@), PieceV::Int(1, 254)]);
        Kind::Pieces(ps)
        }
    } else if eq_str(k, "email") {
        {
        let ps = vec![Piece::Rand(8), Piece::Lit("@example.com")];
        assert(ps@.map_values(|p: Piece| p@) =~= seq![PieceV::Rand(8), PieceV::Lit("@example.com"@)]);
        Kind::Pieces(ps)
        }
    } else if eq_str(k, "auth_method") {
        Kind::Pick(exec_list_auth_methods())
    } else if eq_str(k, "hours") {
        {
        let ps = vec![Piece::Int(1, 72)];
        assert(ps@.map_values(|p: Piece| p@) =~= seq![PieceV::Int(1, 72)]);
        Kind::Pieces(ps)
        }
    } else if eq_str(k, "limit") {
        {
        let ps = vec![Piece::Int(10, 1000)];
        assert(ps@.map_values(|p: Piece| p@) =~= seq![PieceV::Int(10, 1000)]);
        Kind::Pieces(ps)
        }
    } else if eq_str(k, "scope") {
        Kind::Pick(exec_list_scopes())
    } else if eq_str(k, "channel") {
        Kind::Pick(exec_list_channels())
    } else if eq_str(k, "address") {
        {
        let ps = vec![Piece::Rand(8), Piece::Lit("@example.com")];
        assert(ps@.map_values(|p: Piece| p@) =~= seq![PieceV::Rand(8), PieceV::Lit("@example.com"@)]);
        Kind::Pieces(ps)
        }
    } else if eq_str(k, "provider") || eq_str(k, "issuer") || eq_str(k, "gateway") {
        Kind::Pick(exec_list_providers())
    } else if eq_str(k, "attempts") {
        {
        let ps = vec![Piece::Int(1, 10)];
        assert(ps@.map_values(|p: Piece| p@) =~= seq![PieceV::Int(1, 10)]);
        Kind::Pieces(ps)
        }
    } else if eq_str(k, "role") {
        Kind::Pick(exec_list_roles())
    } else if eq_str(k, "kid") {
        {
        let ps = vec![Piece::Rand(8)];
        assert(ps@.map_values(|p: Piece| p@) =~= seq![PieceV::Rand(8)]);
        Kind::Pieces(ps)
        }
    } else if eq_str(k, "value") || eq_str(k, "prefs") {
        Kind::Pick(exec_list_prefs())
    } else if eq_str(k, "query") {
        Kind::Pick(exec_list_queries())
    } else if eq_str(k, "count") || eq_str(k, "active") || eq_str(k, "idle") || eq_str(k, "waiting") || eq_str(k, "hits") || eq_str(k, "keys_affected") || eq_str(k, "rows") || eq_str(k, "available") || eq_str(k, "reserved") || eq_str(k, "items") || eq_str(k, "attempt") || eq_str(k, "max") {
        {
        let ps = vec![Piece::Int(1, 1000)];
        assert(ps@.map_values(|p: Piece| p@) =~= seq![PieceV::Int(1, 1000)]);
        Kind::Pieces(ps)
        }
    } else if eq_str(k, "w") || eq_str(k, "h") {
        {
        let ps = vec![Piece::Int(32, 1920)];
        assert(ps@.map_values(|p: Piece| p@) =~= seq![PieceV::Int(32, 1920)]);
        Kind::Pieces(ps)
        }
    } else if eq_str(k, "plan") {
        Kind::Pick(exec_list_plans())
    } else if eq_str(k, "device") {
        Kind::Pick(exec_list_devices())
    } else if eq_str(k, "export_type") {
        Kind::Pick(exec_list_export_types())
    } else if eq_str(k, "order") || eq_str(k, "sub") {
        {
        let ps = vec![Piece::Lit("ORD-"), Piece::Int(10000, 99999)];
        assert(ps@.map_values(|p: Piece| p@) =~= seq![PieceV::Lit("ORD-"@), PieceV::Int(10000, 99999)]);
        Kind::Pieces(ps)
        }
    } else if eq_str(k, "total") || eq_str(k, "amount") || eq_str(k, "from_amt") || eq_str(k, "to_amt") {
        {
        let ps = vec![Piece::Dec(50, 999999, 2)];
        assert(ps@.map_values(|p: Piece| p@) =~= seq![PieceV::Dec(50, 999999, 2)]);
        Kind::Pieces(ps)
        }
    } else if eq_str(k, "currency") || eq_str(k, "from_ccy") || eq_str(k, "to_ccy") {
        Kind::Pick(exec_list_currencies())
    } else if eq_str(k, "rate") {
        {
        let ps = vec![Piece::Dec(0, 200, 2), Piece::Lit("00")];
        assert(ps@.map_values(|p: Piece| p@) =~= seq![PieceV::Dec(0, 200, 2), PieceV::Lit("00"@)]);
        Kind::Pieces(ps)
        }
    } else if eq_str(k, "txn") {
        {
        let ps = vec![Piece::Lit("txn_"), Piece::Rand(16)];
        assert(ps@.map_values(|p: Piece| p@) =~= seq![PieceV::Lit("txn_"@), PieceV::Rand(16)]);
        Kind::Pieces(ps)
        }
    } else if eq_str(k, "last4") {
        {
        let ps = vec![Piece::Pad(0, 9998, 4)];
        assert(ps@.map_values(|p: Piece| p@) =~= seq![PieceV::Pad(0, 9998, 4)]);
        Kind::Pieces(ps)
        }
    } else if eq_str(k, "brand") {
        Kind::Pick(exec_list_brands())
    } else if eq_str(k, "result") || eq_str(k, "outcome") || eq_str(k, "state") {
        Kind::Pick(exec_list_outcomes())
    } else if eq_str(k, "code") || eq_str(k, "score") {
        {
        let ps = vec![Piece::Int(100, 999)];
        assert(ps@.map_values(|p: Piece| p@) =~= seq![PieceV::Int(100, 999)]);
        Kind::Pieces(ps)
        }
    } else if eq_str(k, "carrier") {
        Kind::Pick(exec_list_carriers())
    } else if eq_str(k, "inv") {
        {
        let ps = vec![Piece::Lit("INV-"), Piece::Int(10000, 99999)];
        assert(ps@.map_values(|p: Piece| p@) =~= seq![PieceV::Lit("INV-"@), PieceV::Int(10000, 99999)]);
        Kind::Pieces(ps)
        }
    } else if eq_str(k, "sku") {
        {
        let ps = vec![Piece::Lit("SKU-"), Piece::Upper(6)];
        assert(ps@.map_values(|p: Piece| p@) =~= seq![PieceV::Lit("SKU-"@), PieceV::Upper(6)]);
        Kind::Pieces(ps)
        }
    } else if eq_str(k, "old") || eq_str(k, "new") || eq_str(k, "old_s") || eq_str(k, "new_s") {
        Kind::Pick(exec_list_states())
    } else if eq_str(k, "date") {
        Kind::Date
    } else if eq_str(k, "delta") {
        {
        let ps = vec![Piece::Sign, Piece::Dec(100, 100000, 2)];
        assert(ps@.map_values(|p: Piece| p@) =~= seq![PieceV::Sign, PieceV::Dec(100, 100000, 2)]);
        Kind::Pieces(ps)
        }
    } else if eq_str(k, "balance") {
        {
        let ps = vec![Piece::Dec(0, 5000000, 2)];
        assert(ps@.map_values(|p: Piece| p@) =~= seq![PieceV::Dec(0, 5000000, 2)]);
        Kind::Pieces(ps)
        }
    } else if eq_str(k, "op") {
        Kind::Pick(exec_list_ops())
    } else if eq_str(k, "key") || eq_str(k, "keyset") {
        {
        let ps = vec![Piece::Rand(4), Piece::Lit(":"), Piece::Rand(8)];
        assert(ps@.map_values(|p: Piece| p@) =~= seq![PieceV::Rand(4), PieceV::Lit(":"@), PieceV::Rand(8)]);
        Kind::Pieces(ps)
        }
    } else if eq_str(k, "policy") {
        Kind::Pick(exec_list_policies())
    } else if eq_str(k, "node") || eq_str(k, "endpoint") || eq_str(k, "host") {
        {
        let ps = vec![Piece::Rand(6), Piece::Lit("-"), Piece::Int(0, 9), Piece::Lit(".cluster.local")];
        assert(ps@.map_values(|p: Piece| p@) =~= seq![PieceV::Rand(6), PieceV::Lit("-"@), PieceV::Int(0, 9), PieceV::Lit(".cluster.local"@)]);
        Kind::Pieces(ps)
        }
    } else if eq_str(k, "port") {
        {
        let ps = vec![Piece::Int(1024, 65535)];
        assert(ps@.map_values(|p: Piece| p@) =~= seq![PieceV::Int(1024, 65535)]);
        Kind::Pieces(ps)
        }
    } else if eq_str(k, "pattern") {
        {
        let ps = vec![Piece::Rand(4), Piece::Lit(":*")];
        assert(ps@.map_values(|p: Piece| p@) =~= seq![PieceV::Rand(4), PieceV::Lit(":*"@)]);
        Kind::Pieces(ps)
        }
    } else if eq_str(k, "type") || eq_str(k, "data_type") {
        Kind::Pick(exec_list_types())
    } else if eq_str(k, "query_prefix") {
        Kind::Pick(exec_list_query_prefixes())
    } else if eq_str(k, "migration") {
        {
        let ps = vec![Piece::Lit("V"), Piece::Int(1, 99), Piece::Lit("__"), Piece::Rand(10)];
        assert(ps@.map_values(|p: Piece| p@) =~= seq![PieceV::Lit("V"@), PieceV::Int(1, 99), PieceV::Lit("__"@), PieceV::Rand(10)]);
        Kind::Pieces(ps)
        }
    } else if eq_str(k, "table") {
        Kind::Pick(exec_list_tables())
    } else if eq_str(k, "primary_lsn") || eq_str(k, "replica_lsn") {
        {
        let ps = vec![Piece::Rand(8), Piece::Lit("/"), Piece::Rand(8)];
        assert(ps@.map_values(|p: Piece| p@) =~= seq![PieceV::Rand(8), PieceV::Lit("/"@), PieceV::Rand(8)]);
        Kind::Pieces(ps)
        }
    } else if eq_str(k, "statements") {
        {
        let ps = vec![Piece::Int(1, 20)];
        assert(ps@.map_values(|p: Piece| p@) =~= seq![PieceV::Int(1, 20)]);
        Kind::Pieces(ps)
        }
    } else {
        Kind::Unknown
    }
}

/// The simulated services.
pub open spec fn services_spec() -> Seq<ServiceV> {
    seq![
        ServiceV {
            name: "api-gateway"@,
            weight: 30,
            messages: seq!["Request processed in {dur}ms — {method} {path} → {status}"@, "Rate limit exceeded for client {client} ({limit} req/min)"@, "Request routing failed: no upstream for {path}"@, "Upstream {upstream} healthy — latency {lat}ms"@, "TLS handshake completed — {version}, cipher {cipher}"@, "WebSocket connection {action}: client {client}"@, "Request validation failed: {field} is {reason}"@, "Response compressed: {size} bytes → {compressed} bytes ({ratio}%)"@, "Circuit breaker opened for {upstream} — health check failed"@, "Authentication token refreshed for user {user}"@],
            level_weights: seq![(5u32, 0u32), (20u32, 1u32), (50u32, 2u32), (17u32, 3u32), (7u32, 4u32), (1u32, 5u32)],
        },
        ServiceV {
            name: "auth-service"@,
            weight: 15,
            messages: seq!["User {user} authenticated via {auth_method} from {ip}"@, "Login failed for {user}: {reason}"@, "Session created for user {user} — expires in {hours}h"@, "Password reset requested for {email}"@, "OAuth2 token exchange: provider={provider}, scope={scope}"@, "MFA challenge sent to {channel}: {address}"@, "SSO assertion validation: {issuer} → {outcome}"@, "Account locked for {user} — {attempts} failed attempts"@, "Role assignment: user={user}, role={role}"@, "JWT key rotation completed — new key {kid}"@],
            level_weights: seq![(5u32, 0u32), (10u32, 1u32), (45u32, 2u32), (25u32, 3u32), (13u32, 4u32), (2u32, 5u32)],
        },
        ServiceV {
            name: "user-service"@,
            weight: 12,
            messages: seq!["User profile updated for {user}: {field}={value}"@, "User {user} registered via {method}"@, "Account deletion requested for user {user} — scheduled for {date}"@, "User search: query=\"{query}\", results={count}"@, "Preferences saved for user {user}: {prefs}"@, "Profile picture uploaded: {size} bytes, dimensions {w}x{h}"@, "Email verification completed for {email}"@, "Subscription plan changed: {user} → {plan}"@, "User {user} logged in from new device ({device})"@, "Export request for user {user}: {export_type}"@],
            level_weights: seq![(3u32, 0u32), (12u32, 1u32), (55u32, 2u32), (20u32, 3u32), (9u32, 4u32), (1u32, 5u32)],
        },
        ServiceV {
            name: "order-service"@,
            weight: 18,
            messages: seq!["Order {order} created — {items} items, total ${total}"@, "Payment processed for order {order}: ${amount} via {method}"@, "Order {order} status changed: {old} → {new}"@, "Inventory check: {sku} — available={avail}, reserved={reserved}"@, "Shipping label generated for order {order}: carrier={carrier}"@, "Refund initiated for order {order}: ${amount} — reason: {reason}"@, "Order {order} cancelled by {actor}"@, "Fraud check on order {order}: {result} (score={score})"@, "Invoice generated for order {order}: invoice #{inv}"@, "Order validation failed: {field} — {details}"@],
            level_weights: seq![(3u32, 0u32), (10u32, 1u32), (52u32, 2u32), (22u32, 3u32), (11u32, 4u32), (2u32, 5u32)],
        },
        ServiceV {
            name: "payment-service"@,
            weight: 10,
            messages: seq!["Transaction {txn}: {amount} {currency} from {from} to {to} — {outcome}"@, "Card charge {result}: {amount} on card {last4} ({brand})"@, "Payout initiated: {amount} to {recipient} via {method}"@, "Transaction declined: {reason} (code={code})"@, "Chargeback received: transaction {txn}, amount {amount}, reason={reason}"@, "Refund processed: {amount} to {customer} for order {order}"@, "Currency conversion: {from_amt} {from_ccy} → {to_amt} {to_ccy} (rate={rate})"@, "Recurring billing executed for subscription {sub}: ${amount}"@, "Wallet balance changed: user={user}, {delta}, new={balance}"@, "Payment gateway {gateway} response time: {lat}ms"@],
            level_weights: seq![(2u32, 0u32), (8u32, 1u32), (48u32, 2u32), (25u32, 3u32), (15u32, 4u32), (2u32, 5u32)],
        },
        ServiceV {
            name: "cache-service"@,
            weight: 8,
            messages: seq!["Cache {op} for key={key}: {result} ({dur}ms)"@, "Cache eviction: key={key} (policy={policy}, size={size})"@, "Cache cluster sync: node={node}, keys={count}, lag={lag}s"@, "Cache hit ratio: {ratio}% ({hits}/{total})"@, "Cache warmup started for keyset={keyset}"@, "Cache invalidation: pattern={pattern}, keys_affected={count}"@, "Redis connection {state}: {endpoint}"@, "Cache serialization error: key={key}, type={type}"@, "Memcache pool status: active={active}, idle={idle}, max={max}"@, "Cache TTL extended for {key}: {old}s → {new}s"@],
            level_weights: seq![(8u32, 0u32), (20u32, 1u32), (50u32, 2u32), (15u32, 3u32), (6u32, 4u32), (1u32, 5u32)],
        },
        ServiceV {
            name: "db-service"@,
            weight: 7,
            messages: seq!["Query executed in {dur}ms: {query_prefix}"@, "Connection pool: active={active}, idle={idle}, waiting={waiting}"@, "Slow query detected: {query_prefix} ({dur}ms, {rows} rows)"@, "Migration {migration} {outcome} ({dur}ms)"@, "Deadlock detected: transaction {txn} rolled back"@, "Replica lag: {lag}s behind primary ({primary_lsn} → {replica_lsn})"@, "Table {table} index rebuild completed ({dur}ms)"@, "Connection timeout: {host}:{port} — retry {attempt}/{max}"@, "Transaction {txn} committed: {statements} statements, {dur}ms"@, "Backup completed: {table}, {size} MB, {dur}s"@],
            level_weights: seq![(5u32, 0u32), (15u32, 1u32), (45u32, 2u32), (22u32, 3u32), (11u32, 4u32), (2u32, 5u32)],
        },
    ]
}

/// The simulated services, with realistic messages.
pub fn services() -> (r: Vec<Service>)
    ensures
        services_view(r@) == services_spec(),
{
    let mut r: Vec<Service> = Vec::new();
    let s = Service {
        name: "api-gateway",
        weight: 30,
        messages: vec!["Request processed in {dur}ms — {method} {path} → {status}", "Rate limit exceeded for client {client} ({limit} req/min)", "Request routing failed: no upstream for {path}", "Upstream {upstream} healthy — latency {lat}ms", "TLS handshake completed — {version}, cipher {cipher}", "WebSocket connection {action}: client {client}", "Request validation failed: {field} is {reason}", "Response compressed: {size} bytes → {compressed} bytes ({ratio}%)", "Circuit breaker opened for {upstream} — health check failed", "Authentication token refreshed for user {user}"],
        level_weights: vec![(5, 0), (20, 1), (50, 2), (17, 3), (7, 4), (1, 5)],
    };
    assert(strs_view(s.messages@) =~= services_spec()[0].messages);
    assert(s.level_weights@ =~= services_spec()[0].level_weights);
    assert(service_view(s) == services_spec()[0]);
    r.push(s);
    let s = Service {
        name: "auth-service",
        weight: 15,
        messages: vec!["User {user} authenticated via {auth_method} from {ip}", "Login failed for {user}: {reason}", "Session created for user {user} — expires in {hours}h", "Password reset requested for {email}", "OAuth2 token exchange: provider={provider}, scope={scope}", "MFA challenge sent to {channel}: {address}", "SSO assertion validation: {issuer} → {outcome}", "Account locked for {user} — {attempts} failed attempts", "Role assignment: user={user}, role={role}", "JWT key rotation completed — new key {kid}"],
        level_weights: vec![(5, 0), (10, 1), (45, 2), (25, 3), (13, 4), (2, 5)],
    };
    assert(strs_view(s.messages@) =~= services_spec()[1].messages);
    assert(s.level_weights@ =~= services_spec()[1].level_weights);
    assert(service_view(s) == services_spec()[1]);
    r.push(s);
    let s = Service {
        name: "user-service",
        weight: 12,
        messages: vec!["User profile updated for {user}: {field}={value}", "User {user} registered via {method}", "Account deletion requested for user {user} — scheduled for {date}", "User search: query=\"{query}\", results={count}", "Preferences saved for user {user}: {prefs}", "Profile picture uploaded: {size} bytes, dimensions {w}x{h}", "Email verification completed for {email}", "Subscription plan changed: {user} → {plan}", "User {user} logged in from new device ({device})", "Export request for user {user}: {export_type}"],
        level_weights: vec![(3, 0), (12, 1), (55, 2), (20, 3), (9, 4), (1, 5)],
    };
    assert(strs_view(s.messages@) =~= services_spec()[2].messages);
    assert(s.level_weights@ =~= services_spec()[2].level_weights);
    assert(service_view(s) == services_spec()[2]);
    r.push(s);
    let s = Service {
        name: "order-service",
        weight: 18,
        messages: vec!["Order {order} created — {items} items, total ${total}", "Payment processed for order {order}: ${amount} via {method}", "Order {order} status changed: {old} → {new}", "Inventory check: {sku} — available={avail}, reserved={reserved}", "Shipping label generated for order {order}: carrier={carrier}", "Refund initiated for order {order}: ${amount} — reason: {reason}", "Order {order} cancelled by {actor}", "Fraud check on order {order}: {result} (score={score})", "Invoice generated for order {order}: invoice #{inv}", "Order validation failed: {field} — {details}"],
        level_weights: vec![(3, 0), (10, 1), (52, 2), (22, 3), (11, 4), (2, 5)],
    };
    assert(strs_view(s.messages@) =~= services_spec()[3].messages);
    assert(s.level_weights@ =~= services_spec()[3].level_weights);
    assert(service_view(s) == services_spec()[3]);
    r.push(s);
    let s = Service {
        name: "payment-service",
        weight: 10,
        messages: vec!["Transaction {txn}: {amount} {currency} from {from} to {to} — {outcome}", "Card charge {result}: {amount} on card {last4} ({brand})", "Payout initiated: {amount} to {recipient} via {method}", "Transaction declined: {reason} (code={code})", "Chargeback received: transaction {txn}, amount {amount}, reason={reason}", "Refund processed: {amount} to {customer} for order {order}", "Currency conversion: {from_amt} {from_ccy} → {to_amt} {to_ccy} (rate={rate})", "Recurring billing executed for subscription {sub}: ${amount}", "Wallet balance changed: user={user}, {delta}, new={balance}", "Payment gateway {gateway} response time: {lat}ms"],
        level_weights: vec![(2, 0), (8, 1), (48, 2), (25, 3), (15, 4), (2, 5)],
    };
    assert(strs_view(s.messages@) =~= services_spec()[4].messages);
    assert(s.level_weights@ =~= services_spec()[4].level_weights);
    assert(service_view(s) == services_spec()[4]);
    r.push(s);
    let s = Service {
        name: "cache-service",
        weight: 8,
        messages: vec!["Cache {op} for key={key}: {result} ({dur}ms)", "Cache eviction: key={key} (policy={policy}, size={size})", "Cache cluster sync: node={node}, keys={count}, lag={lag}s", "Cache hit ratio: {ratio}% ({hits}/{total})", "Cache warmup started for keyset={keyset}", "Cache invalidation: pattern={pattern}, keys_affected={count}", "Redis connection {state}: {endpoint}", "Cache serialization error: key={key}, type={type}", "Memcache pool status: active={active}, idle={idle}, max={max}", "Cache TTL extended for {key}: {old}s → {new}s"],
        level_weights: vec![(8, 0), (20, 1), (50, 2), (15, 3), (6, 4), (1, 5)],
    };
    assert(strs_view(s.messages@) =~= services_spec()[5].messages);
    assert(s.level_weights@ =~= services_spec()[5].level_weights);
    assert(service_view(s) == services_spec()[5]);
    r.push(s);
    let s = Service {
        name: "db-service",
        weight: 7,
        messages: vec!["Query executed in {dur}ms: {query_prefix}", "Connection pool: active={active}, idle={idle}, waiting={waiting}", "Slow query detected: {query_prefix} ({dur}ms, {rows} rows)", "Migration {migration} {outcome} ({dur}ms)", "Deadlock detected: transaction {txn} rolled back", "Replica lag: {lag}s behind primary ({primary_lsn} → {replica_lsn})", "Table {table} index rebuild completed ({dur}ms)", "Connection timeout: {host}:{port} — retry {attempt}/{max}", "Transaction {txn} committed: {statements} statements, {dur}ms", "Backup completed: {table}, {size} MB, {dur}s"],
        level_weights: vec![(5, 0), (15, 1), (45, 2), (22, 3), (11, 4), (2, 5)],
    };
    assert(strs_view(s.messages@) =~= services_spec()[6].messages);
    assert(s.level_weights@ =~= services_spec()[6].level_weights);
    assert(service_view(s) == services_spec()[6]);
    r.push(s);
    proof {
        assert(services_view(r@) =~= services_spec());
    }
    r
}

pub open spec fn service_weights(ss: Seq<ServiceV>) -> Seq<u32> {
    ss.map_values(|s: ServiceV| s.weight)
}

pub open spec fn level_weight_list(lw: Seq<(u32, u32)>) -> Seq<u32> {
    lw.map_values(|p: (u32, u32)| p.0)
}

/// The service a roll picks by weight (the first one when none does).
pub open spec fn service_for_roll(ss: Seq<ServiceV>, roll: int) -> int {
    match weighted_pick(service_weights(ss), roll) {
        Some(i) => i,
        None => 0,
    }
}

/// The level a roll picks by the service's level weights (INFO when none does or the
/// weights are all zero).
pub open spec fn level_for_roll(lw: Seq<(u32, u32)>, roll: int) -> u32 {
    if wsum(level_weight_list(lw)) == 0 {
        2
    } else {
        match weighted_pick(level_weight_list(lw), roll) {
            Some(i) => lw[i].1,
            None => 2,
        }
    }
}

/// A service index chosen by weight.
fn weighted_service_index(ss: &Vec<Service>, rng: &mut rand::rngs::ThreadRng) -> (r: usize)
    requires
        0 < ss.len() <= 1000,
        wsum(service_weights(services_view(ss@))) > 0,
    ensures
        r < ss.len(),
        exists|roll: int|
            0 <= roll < wsum(service_weights(services_view(ss@))) && r == service_for_roll(
                services_view(ss@),
                roll,
            ),
{
    let ghost sv = services_view(ss@);
    let mut ws: Vec<u32> = Vec::new();
    let mut i: usize = 0;
    while i < ss.len()
        invariant
            i <= ss.len(),
            sv == services_view(ss@),
            ws@ == service_weights(sv).take(i as int),
        decreases ss.len() - i,
    {
        ws.push(ss[i].weight);
        assert(ws@ =~= service_weights(sv).take(i + 1));
        i = i + 1;
    }
    assert(ws@ =~= service_weights(sv));
    let total = total_weight(&ws);
    let roll = random_below(rng, total);
    let r = match pick_weighted(&ws, roll) {
        Some(k) => k,
        None => 0,
    };
    assert(r == service_for_roll(sv, roll as int));
    r
}

/// A level chosen by the service's level weights.
fn weighted_level(s: &Service, rng: &mut rand::rngs::ThreadRng) -> (r: u32)
    requires
        s.level_weights.len() <= 1000,
    ensures
        exists|roll: int|
            0 <= roll && (roll < wsum(level_weight_list(s.level_weights@)) || wsum(
                level_weight_list(s.level_weights@),
            ) == 0) && r == level_for_roll(s.level_weights@, roll),
{
    let mut ws: Vec<u32> = Vec::new();
    let mut i: usize = 0;
    while i < s.level_weights.len()
        invariant
            i <= s.level_weights.len(),
            ws@ == level_weight_list(s.level_weights@).take(i as int),
        decreases s.level_weights.len() - i,
    {
        ws.push(s.level_weights[i].0);
        assert(ws@ =~= level_weight_list(s.level_weights@).take(i + 1));
        i = i + 1;
    }
    assert(ws@ =~= level_weight_list(s.level_weights@));
    let total = total_weight(&ws);
    if total == 0 {
        assert(2u32 == level_for_roll(s.level_weights@, 0));
        return 2;
    }
    let roll = random_below(rng, total);
    let r = match pick_weighted(&ws, roll) {
        Some(k) => s.level_weights[k].1,
        None => 2,
    };
    assert(r == level_for_roll(s.level_weights@, roll as int));
    r
}

// ---------------------------------------------------------------------------
// Configuration and lines
// ---------------------------------------------------------------------------

/// Configuration for log generation.
#[derive(Debug, Clone)]
pub struct GenerateConfig {
    /// Output format.
    pub format: String,
    /// Number of log lines to generate.
    pub count: u64,
    /// Lines per second (rate limit, 0 = unlimited).
    pub rate: u64,
    /// Time range start (ISO 8601).
    pub start: Option<String>,
    /// Time range end (ISO 8601).
    pub end: Option<String>,
    /// Correlation ID prefix (none = no correlation IDs).
    pub correlation_prefix: Option<String>,
    /// Overrides for service weights, level weights, etc.
    pub extra: Option<FieldMap>,
}

impl Default for GenerateConfig {
    fn default() -> (r: GenerateConfig)
        ensures
            r.format@ == "json"@,
            r.count == 100,
            r.rate == 0,
            r.start is None,
            r.end is None,
            r.correlation_prefix is None,
            r.extra is None,
    {
        GenerateConfig {
            format: "json".to_string(),
            count: 100,
            rate: 0,
            start: None,
            end: None,
            correlation_prefix: None,
            extra: None,
        }
    }
}

/// What every line of a run shares: the output format (lower-cased), the start of the
/// time range and its length in milliseconds, the correlation prefix, and the
/// services.
pub struct GenPlan {
    pub format: String,
    pub start: Timestamp,
    pub span_ms: i64,
    pub correlation: Option<String>,
    pub services: Vec<Service>,
}

/// The time range of a configuration: both ends when both are given (the first that
/// does not parse gives its error), else the hour before `now`.
pub open spec fn spec_range(
    start: Option<Seq<char>>,
    end: Option<Seq<char>>,
    now: Timestamp,
) -> Result<(Timestamp, Timestamp), Seq<char>> {
    match (start, end) {
        (Some(s), Some(e)) => match spec_parse_utc(s) {
            Err(m) => Err(m),
            Ok((ss, sn)) => match spec_parse_utc(e) {
                Err(m) => Err(m),
                Ok((es, en)) => Ok((Timestamp { secs: ss, nanos: sn }, Timestamp { secs: es, nanos: en })),
            },
        },
        _ => Ok((Timestamp { secs: (now.secs - 3600) as i64, nanos: now.nanos }, now)),
    }
}

/// The error text when `chrono` cannot measure a time range.
pub open spec fn range_error() -> Seq<char> {
    "time range out of range"@
}

/// Prepare a run (see [`spec_range`]); the span is `chrono`'s whole milliseconds
/// from start to end.
pub fn plan(config: &GenerateConfig) -> (r: Result<GenPlan, String>)
    ensures
        exists|n: Timestamp|
            #![trigger spec_range(opt_view_s(config.start), opt_view_s(config.end), n)]
            match spec_range(opt_view_s(config.start), opt_view_s(config.end), n) {
                Err(m) => r matches Err(e) && e@ == m,
                Ok((s, e)) => match spec_millis_between(s.secs, s.nanos, e.secs, e.nanos) {
                    None => r matches Err(x) && x@ == range_error(),
                    Some(span) => r matches Ok(p) && p.start == s && p.span_ms == span
                        && p.format@ == crate::text::spec_to_lowercase(config.format@)
                        && opt_view_s(p.correlation) == opt_view_s(config.correlation_prefix)
                        && services_view(p.services@) == services_spec(),
                },
            },
{
    let n = now();
    let range: Result<(Timestamp, Timestamp), String> = match (&config.start, &config.end) {
        (Some(s), Some(e)) => match parse_utc(s.as_str()) {
            Err(m) => Err(m),
            Ok(st) => match parse_utc(e.as_str()) {
                Err(m) => Err(m),
                Ok(et) => Ok((st, et)),
            },
        },
        _ => Ok((Timestamp { secs: n.secs - 3600, nanos: n.nanos }, n)),
    };
    let r = match range {
        Err(m) => Err(m),
        Ok((s, e)) => match millis_between(s, e) {
            None => Err("time range out of range".to_string()),
            Some(span) => Ok(
                GenPlan {
                    format: crate::text::to_lowercase(config.format.as_str()),
                    start: s,
                    span_ms: span,
                    correlation: crate::models::copy_opt(&config.correlation_prefix),
                    services: services(),
                },
            ),
        },
    };
    proof {
        reveal_strlit("time range out of range");
    }
    assert(match spec_range(opt_view_s(config.start), opt_view_s(config.end), n) {
        Err(m) => r matches Err(e) && e@ == m,
        Ok((s, e)) => match spec_millis_between(s.secs, s.nanos, e.secs, e.nanos) {
            None => r matches Err(x) && x@ == range_error(),
            Some(span) => r matches Ok(p) && p.start == s && p.span_ms == span
                && p.format@ == crate::text::spec_to_lowercase(config.format@)
                && opt_view_s(p.correlation) == opt_view_s(config.correlation_prefix)
                && services_view(p.services@) == services_spec(),
        },
    });
    r
}

pub open spec fn opt_view_s(o: Option<String>) -> Option<Seq<char>> {
    crate::models::opt_view(o)
}

/// The line layouts of the output formats.
#[derive(Debug, Clone, Copy, PartialEq, Eq, Structural)]
pub enum LineLayout {
    Json,
    Logfmt,
    Syslog,
    Apache,
    Nginx,
    Csv,
    Plain,
    /// An unknown format: plain text without the correlation ID.
    Bare,
}

/// The layout a (lower-cased) format name selects.
pub open spec fn layout_of(f: Seq<char>) -> LineLayout {
    if f == "json"@ || f == "jsonl"@ {
        LineLayout::Json
    } else if f == "logfmt"@ {
        LineLayout::Logfmt
    } else if f == "syslog"@ {
        LineLayout::Syslog
    } else if f == "apache"@ || f == "apache_combined"@ || f == "combined"@ {
        LineLayout::Apache
    } else if f == "nginx"@ {
        LineLayout::Nginx
    } else if f == "csv"@ {
        LineLayout::Csv
    } else if f == "plain"@ || f == "text"@ {
        LineLayout::Plain
    } else {
        LineLayout::Bare
    }
}

fn layout_for(f: &str) -> (r: LineLayout)
    ensures
        r == layout_of(f@),
{
    let c = chars_of(f);
    if eq_str(&c, "json") || eq_str(&c, "jsonl") {
        LineLayout::Json
    } else if eq_str(&c, "logfmt") {
        LineLayout::Logfmt
    } else if eq_str(&c, "syslog") {
        LineLayout::Syslog
    } else if eq_str(&c, "apache") || eq_str(&c, "apache_combined") || eq_str(&c, "combined") {
        LineLayout::Apache
    } else if eq_str(&c, "nginx") {
        LineLayout::Nginx
    } else if eq_str(&c, "csv") {
        LineLayout::Csv
    } else if eq_str(&c, "plain") || eq_str(&c, "text") {
        LineLayout::Plain
    } else {
        LineLayout::Bare
    }
}

/// `s` with each `"` replaced by `rep`.
pub open spec fn replace_quote(s: Seq<char>, rep: Seq<char>) -> Seq<char>
    decreases s.len(),
{
    if s.len() == 0 {
        Seq::empty()
    } else {
        replace_quote(s.drop_last(), rep) + if s.last() == '"' {
            rep
        } else {
            seq![s.last()]
        }
    }
}

/// `s` without its hyphens.
pub open spec fn strip_hyphens(s: Seq<char>) -> Seq<char>
    decreases s.len(),
{
    if s.len() == 0 {
        Seq::empty()
    } else {
        strip_hyphens(s.drop_last()) + if s.last() == '-' {
            Seq::empty()
        } else {
            seq![s.last()]
        }
    }
}

fn push_replaced(out: &mut Vec<char>, s: &str, rep: &str)
    ensures
        final(out)@ == old(out)@ + replace_quote(s@, rep@),
{
    let c = chars_of(s);
    let ghost base = out@;
    let mut i: usize = 0;
    assert(c@.take(0) =~= Seq::<char>::empty());
    while i < c.len()
        invariant
            i <= c.len(),
            c@ == s@,
            out@ == base + replace_quote(c@.take(i as int), rep@),
        decreases c.len() - i,
    {
        assert(c@.take(i + 1).drop_last() =~= c@.take(i as int));
        if c[i] == '"' {
            push_lit(out, rep);
        } else {
            out.push(c[i]);
        }
        assert(out@ =~= base + replace_quote(c@.take(i + 1), rep@));
        i = i + 1;
    }
    assert(c@.take(c.len() as int) =~= c@);
}

fn push_stripped(out: &mut Vec<char>, s: &str)
    ensures
        final(out)@ == old(out)@ + strip_hyphens(s@),
{
    let c = chars_of(s);
    let ghost base = out@;
    let mut i: usize = 0;
    assert(c@.take(0) =~= Seq::<char>::empty());
    while i < c.len()
        invariant
            i <= c.len(),
            c@ == s@,
            out@ == base + strip_hyphens(c@.take(i as int)),
        decreases c.len() - i,
    {
        assert(c@.take(i + 1).drop_last() =~= c@.take(i as int));
        if c[i] != '-' {
            out.push(c[i]);
        }
        assert(out@ =~= base + strip_hyphens(c@.take(i + 1)));
        i = i + 1;
    }
    assert(c@.take(c.len() as int) =~= c@);
}

/// The syslog priority of a level name.
pub open spec fn syslog_priority(l: Seq<char>) -> nat {
    if l == "TRACE"@ || l == "DEBUG"@ {
        7
    } else if l == "INFO"@ {
        6
    } else if l == "WARN"@ {
        4
    } else if l == "ERROR"@ {
        3
    } else if l == "FATAL"@ {
        2
    } else {
        6
    }
}

/// The random parts of one generated line.
pub struct LineDraw {
    pub svc: int,
    pub level: u32,
    pub template: int,
    pub message: Seq<char>,
    pub corr_id: Seq<char>,
    pub pid: int,
    pub ip: Seq<char>,
    pub method: Seq<char>,
    pub path: Seq<char>,
    pub status: int,
    pub bytes: int,
    pub agent: Seq<char>,
    pub resp: Seq<char>,
    pub upstream: Seq<char>,
    pub csv_id: Seq<char>,
}

pub open spec fn ip_pieces() -> Seq<PieceV> {
    seq![
        PieceV::Int(1, 254), PieceV::Lit("."@), PieceV::Int(0, 254), PieceV::Lit("."@),
        PieceV::Int(0, 254), PieceV::Lit("."@), PieceV::Int(1, 254),
    ]
}

pub open spec fn upstream_pieces() -> Seq<PieceV> {
    seq![PieceV::Rand(8), PieceV::Lit("."@), PieceV::Int(1, 99), PieceV::Lit(":"@), PieceV::Int(3000, 9998)]
}

/// The draws are possible outcomes: the service and level by their weights, a message
/// template of the service filled in, and the values each layout draws in range.
pub open spec fn draw_ok(layout: LineLayout, corr: Option<Seq<char>>, ss: Seq<ServiceV>, d: LineDraw) -> bool {
    &&& 0 <= d.svc < ss.len()
    &&& exists|roll: int| 0 <= roll < wsum(service_weights(ss)) && d.svc == #[trigger] service_for_roll(ss, roll)
    &&& exists|roll: int|
        0 <= roll && (roll < wsum(level_weight_list(ss[d.svc].level_weights)) || wsum(
            level_weight_list(ss[d.svc].level_weights),
        ) == 0) && d.level == #[trigger] level_for_roll(ss[d.svc].level_weights, roll)
    &&& 0 <= d.template < ss[d.svc].messages.len()
    &&& filled(ss[d.svc].messages[d.template], d.message)
    &&& corr is Some ==> uuid_shape(d.corr_id)
    &&& layout == LineLayout::Syslog ==> 1000 <= d.pid <= 99998
    &&& (layout == LineLayout::Apache || layout == LineLayout::Nginx) ==> {
        &&& fits(d.ip, ip_pieces())
        &&& list_methods().contains(d.method)
        &&& list_paths().contains(d.path)
        &&& exists|i: int| 0 <= i < status_table().len() && d.status == #[trigger] status_table()[i].0
        &&& 100 <= d.bytes <= 50000
    }
    &&& layout == LineLayout::Apache ==> piece_ok(d.agent, PieceV::Rand(6))
    &&& layout == LineLayout::Nginx ==> {
        &&& fits(d.upstream, upstream_pieces())
        &&& exists|h: nat| h <= 500 && d.resp == #[trigger] dec_text(h, 2) + "0"@
    }
    &&& (layout == LineLayout::Csv && corr is Some) ==> uuid_shape(d.csv_id)
}

/// The correlation text appended to a line.
pub open spec fn corr_text(corr: Option<Seq<char>>, id: Seq<char>) -> Seq<char> {
    match corr {
        Some(p) => " "@ + p + "="@ + id,
        None => Seq::empty(),
    }
}

/// A JSON line: level, logger, message and timestamp, keys in order.
pub open spec fn json_line(ln: Seq<char>, name: Seq<char>, msg: Seq<char>, ts_str: Seq<char>) -> Seq<char> {
    "{\"level\":"@ + spec_json_string(ln) + ",\"logger\":"@ + spec_json_string(name) + ",\"msg\":"@
        + spec_json_string(msg) + ",\"timestamp\":"@ + spec_json_string(ts_str) + "}"@
}

/// A logfmt line.
pub open spec fn logfmt_line(ln: Seq<char>, name: Seq<char>, msg: Seq<char>, ts_str: Seq<char>, c: Seq<char>) -> Seq<char> {
    "level="@ + ln + " msg=\""@ + replace_quote(msg, "\\\""@) + "\" logger="@ + name
        + " timestamp=\""@ + ts_str + "\""@ + c
}

/// A syslog line.
pub open spec fn syslog_line(ts: Timestamp, ln: Seq<char>, name: Seq<char>, pid: int, msg: Seq<char>, c: Seq<char>) -> Seq<char> {
    "<"@ + nat_text(syslog_priority(ln)) + ">"@ + spec_format(ts.secs, ts.nanos, "%b %d %H:%M:%S"@)
        + " svc-"@ + strip_hyphens(name) + " "@ + strip_hyphens(name) + "["@ + nat_text(pid as nat)
        + "]: ["@ + ln + "] "@ + msg + c
}

/// The start of an access log line, up to the response size.
pub open spec fn access_head(ts: Timestamp, d: LineDraw) -> Seq<char> {
    d.ip + " - - ["@ + spec_format(ts.secs, ts.nanos, "%d/%b/%Y:%H:%M:%S %z"@) + "] \""@ + d.method
        + " "@ + d.path + " HTTP/1.1\" "@ + nat_text(d.status as nat) + " "@ + nat_text(d.bytes as nat)
}

/// A CSV line.
pub open spec fn csv_gen_line(ts_str: Seq<char>, ln: Seq<char>, name: Seq<char>, msg: Seq<char>, id: Seq<char>) -> Seq<char> {
    "\""@ + ts_str + "\",\""@ + ln + "\",\""@ + name + "\",\""@ + replace_quote(msg, "\"\""@) + "\",\""@
        + id + "\""@
}

/// A plain text line.
pub open spec fn plain_line(ts_str: Seq<char>, ln: Seq<char>, name: Seq<char>, msg: Seq<char>, c: Seq<char>) -> Seq<char> {
    ts_str + " ["@ + ln + "] "@ + name + ": "@ + msg + c
}

/// The line for the draws, at instant `ts`.
pub open spec fn spec_line(
    layout: LineLayout,
    ts: Timestamp,
    corr: Option<Seq<char>>,
    ss: Seq<ServiceV>,
    d: LineDraw,
) -> Seq<char> {
    let ts_str = spec_format(ts.secs, ts.nanos, "%Y-%m-%dT%H:%M:%S%.3fZ"@);
    let ln = gen_level_name(d.level);
    let name = ss[d.svc].name;
    let c = corr_text(corr, d.corr_id);
    match layout {
        LineLayout::Json => json_line(ln, name, d.message, ts_str),
        LineLayout::Logfmt => logfmt_line(ln, name, d.message, ts_str, c),
        LineLayout::Syslog => syslog_line(ts, ln, name, d.pid, d.message, c),
        LineLayout::Apache => access_head(ts, d) + " \"-\" \"Mozilla/5.0 (compatible; Bot-"@ + d.agent
            + ")\""@ + c,
        LineLayout::Nginx => access_head(ts, d) + " \""@ + d.upstream + "\" \"-\" \""@ + d.resp
            + "\" \"-\" \""@ + d.upstream + "\""@ + c,
        LineLayout::Csv => csv_gen_line(
            ts_str,
            ln,
            name,
            d.message,
            if corr is Some {
                d.csv_id
            } else {
                Seq::empty()
            },
        ),
        LineLayout::Plain => plain_line(ts_str, ln, name, d.message, c),
        LineLayout::Bare => plain_line(ts_str, ln, name, d.message, Seq::empty()),
    }
}

/// A plan's services can be drawn from: some services with some weight, each with
/// messages, and few enough of everything.
pub open spec fn services_sane(ss: Seq<ServiceV>) -> bool {
    &&& 0 < ss.len() <= 1000
    &&& wsum(service_weights(ss)) > 0
    &&& forall|i: int|
        0 <= i < ss.len() ==> 0 < (#[trigger] ss[i]).messages.len() <= 1000 && ss[i].level_weights.len()
            <= 1000
}

/// The built-in services can be drawn from.
pub proof fn lemma_services_sane()
    ensures
        services_sane(services_spec()),
{
    let ss = services_spec();
    let w = service_weights(ss);
    assert(w =~= seq![30u32, 15, 12, 18, 10, 8, 7]);
    assert(w.take(7) =~= w);
    reveal_with_fuel(wsum, 8);
    assert(wsum(w) == 100);
}

fn push_str_of(out: &mut Vec<char>, s: &String)
    ensures
        final(out)@ == old(out)@ + s@,
{
    push_lit(out, s.as_str());
}

fn push_chars(out: &mut Vec<char>, s: &Vec<char>)
    ensures
        final(out)@ == old(out)@ + s@,
{
    crate::text::push_range(out, s, 0, s.len());
    assert(s@.subrange(0, s.len() as int) =~= s@);
}

/// The draws every layout shares: a service and level by weight, and one of the
/// service's templates filled in; `None` when the template cannot be filled.
fn draw_message(ss: &Vec<Service>, rng: &mut rand::rngs::ThreadRng) -> (r: Option<(usize, u32, usize, String)>)
    requires
        services_sane(services_view(ss@)),
    ensures
        match r {
            Some((k, level, t, m)) => {
                let sv = services_view(ss@);
                &&& k < ss.len()
                &&& exists|roll: int| 0 <= roll < wsum(service_weights(sv)) && k == #[trigger] service_for_roll(sv, roll)
                &&& exists|roll: int|
                    0 <= roll && (roll < wsum(level_weight_list(sv[k as int].level_weights)) || wsum(
                        level_weight_list(sv[k as int].level_weights),
                    ) == 0) && level == #[trigger] level_for_roll(sv[k as int].level_weights, roll)
                &&& t < sv[k as int].messages.len()
                &&& filled(sv[k as int].messages[t as int], m@)
            },
            None => exists|k: int, m: int|
                0 <= k < ss.len() && 0 <= m < services_view(ss@)[k].messages.len() && !scan_ok(
                    #[trigger] services_view(ss@)[k].messages[m],
                    0,
                ),
        },
{
    let ghost sv = services_view(ss@);
    let k = weighted_service_index(ss, rng);
    let service = &ss[k];
    assert(service_view(*service) == sv[k as int]);
    let level = weighted_level(service, rng);
    let t = random_below(rng, service.messages.len() as u64) as usize;
    assert(strs_view(service.messages@)[t as int] == service.messages@[t as int]@);
    match fill_template(service.messages[t], rng) {
        Some(m) => Some((k, level, t, m)),
        None => {
            assert(!scan_ok(sv[k as int].messages[t as int], 0));
            None
        },
    }
}

fn syslog_text(ts: Timestamp, ln: &str, name: &str, msg: &String, c: &Vec<char>, rng: &mut rand::rngs::ThreadRng) -> (r: (Vec<char>, i64))
    ensures
        1000 <= r.1 <= 99998,
        r.0@ == syslog_line(ts, ln@, name@, r.1 as int, msg@, c@),
{
    let pid = random_between(rng, 1000, 99998);
    let lc = chars_of(ln);
    let pri: u64 = if eq_str(&lc, "TRACE") || eq_str(&lc, "DEBUG") {
        7
    } else if eq_str(&lc, "INFO") {
        6
    } else if eq_str(&lc, "WARN") {
        4
    } else if eq_str(&lc, "ERROR") {
        3
    } else if eq_str(&lc, "FATAL") {
        2
    } else {
        6
    };
    let mut out: Vec<char> = Vec::new();
    push_lit(&mut out, "<");
    push_chars(&mut out, &nat_to_text(pri));
    push_lit(&mut out, ">");
    push_str_of(&mut out, &format_ts(ts, "%b %d %H:%M:%S"));
    push_lit(&mut out, " svc-");
    push_stripped(&mut out, name);
    push_lit(&mut out, " ");
    push_stripped(&mut out, name);
    push_lit(&mut out, "[");
    push_chars(&mut out, &nat_to_text(pid as u64));
    push_lit(&mut out, "]: [");
    push_lit(&mut out, ln);
    push_lit(&mut out, "] ");
    push_str_of(&mut out, msg);
    push_chars(&mut out, c);
    assert(pri as nat == syslog_priority(ln@));
    assert(out@ =~= syslog_line(ts, ln@, name@, pid as int, msg@, c@));
    (out, pid)
}

/// The draws of an access line and its text up to the response size.
fn access_text(ts: Timestamp, rng: &mut rand::rngs::ThreadRng) -> (r: (Vec<char>, Ghost<LineDraw>))
    ensures
        fits(r.1@.ip, ip_pieces()),
        list_methods().contains(r.1@.method),
        list_paths().contains(r.1@.path),
        exists|i: int| 0 <= i < status_table().len() && r.1@.status == #[trigger] status_table()[i].0,
        100 <= r.1@.bytes <= 50000,
        r.0@ == access_head(ts, r.1@),
{
    let no_key: Vec<char> = Vec::new();
    let ipv = vec![
        Piece::Int(1, 254), Piece::Lit("."), Piece::Int(0, 254), Piece::Lit("."),
        Piece::Int(0, 254), Piece::Lit("."), Piece::Int(1, 254),
    ];
    assert(ipv@.map_values(|p: Piece| p@) =~= ip_pieces());
    let ip_kind = Kind::Pieces(ipv);
    let ip = draw_value(&no_key, &ip_kind, rng);
    let mk = Kind::Pick(exec_list_methods());
    let method = draw_value(&no_key, &mk, rng);
    let pk = Kind::Pick(exec_list_paths());
    let path = draw_value(&no_key, &pk, rng);
    let status = random_status(rng);
    let bytes = random_between(rng, 100, 50000);
    let ghost d = LineDraw {
        svc: 0,
        level: 0,
        template: 0,
        message: Seq::empty(),
        corr_id: Seq::empty(),
        pid: 0,
        ip: ip@,
        method: method@,
        path: path@,
        status: status as int,
        bytes: bytes as int,
        agent: Seq::empty(),
        resp: Seq::empty(),
        upstream: Seq::empty(),
        csv_id: Seq::empty(),
    };
    let mut out: Vec<char> = Vec::new();
    push_chars(&mut out, &ip);
    push_lit(&mut out, " - - [");
    push_str_of(&mut out, &format_ts(ts, "%d/%b/%Y:%H:%M:%S %z"));
    push_lit(&mut out, "] \"");
    push_chars(&mut out, &method);
    push_lit(&mut out, " ");
    push_chars(&mut out, &path);
    push_lit(&mut out, " HTTP/1.1\" ");
    push_chars(&mut out, &nat_to_text(status as u64));
    push_lit(&mut out, " ");
    push_chars(&mut out, &nat_to_text(bytes as u64));
    assert(out@ =~= access_head(ts, d));
    (out, Ghost(d))
}

/// The nginx tail: the upstream and the response time (drawn as a whole number of
/// hundredths of a second, written with three decimals).
fn nginx_tail(rng: &mut rand::rngs::ThreadRng) -> (r: (Vec<char>, Vec<char>))
    ensures
        exists|h: nat| h <= 500 && r.0@ == #[trigger] dec_text(h, 2) + "0"@,
        fits(r.1@, upstream_pieces()),
{
    let h = random_between(rng, 0, 500);
    let mut resp = dec_to_text(h as u64, 2);
    resp.push('0');
    let no_key: Vec<char> = Vec::new();
    let upv = vec![
        Piece::Rand(8), Piece::Lit("."), Piece::Int(1, 99), Piece::Lit(":"),
        Piece::Int(3000, 9998),
    ];
    assert(upv@.map_values(|p: Piece| p@) =~= upstream_pieces());
    let uk = Kind::Pieces(upv);
    let upstream = draw_value(&no_key, &uk, rng);
    proof {
        reveal_strlit("0");
        assert(resp@ =~= dec_text(h as nat, 2) + "0"@);
    }
    (resp, upstream)
}

/// The number of lines written between pauses at a rate of `rate` lines per second:
/// a tenth of the rate, at least one.
pub open spec fn batch_size(rate: u64) -> u64 {
    if rate / 10 > 1 {
        rate / 10
    } else {
        1
    }
}

/// Whether to pause after writing line `i` (counting from 0) at a rate of `rate`
/// lines per second: with a rate, after every full batch but the first line.
pub fn pause_after(i: u64, rate: u64) -> (r: bool)
    ensures
        r == (rate > 0 && i > 0 && i % batch_size(rate) == 0),
{
    let batch: u64 = if rate / 10 > 1 {
        rate / 10
    } else {
        1
    };
    rate > 0 && i % batch == 0 && i > 0
}

/// One generated line, `offset_ms` milliseconds after the start of the run (the caller
/// spreads the lines over the time range): the line for some possible draws (see
/// [`draw_ok`] and [`spec_line`]); `None` when `chrono` cannot add the offset or a
/// drawn template cannot be filled.
pub fn generate_line(plan: &GenPlan, offset_ms: i64, rng: &mut rand::rngs::ThreadRng) -> (r: Option<String>)
    requires
        services_sane(services_view(plan.services@)),
    ensures
        match ts_of(spec_add_millis(plan.start.secs, plan.start.nanos, offset_ms)) {
            None => r is None,
            Some(ts) => match r {
                Some(line) => exists|d: LineDraw|
                    #![trigger draw_ok(layout_of(plan.format@), opt_view_s(plan.correlation), services_view(plan.services@), d)]
                    draw_ok(layout_of(plan.format@), opt_view_s(plan.correlation), services_view(plan.services@), d)
                        && line@ == spec_line(
                        layout_of(plan.format@),
                        ts,
                        opt_view_s(plan.correlation),
                        services_view(plan.services@),
                        d,
                    ),
                None => exists|k: int, m: int|
                    0 <= k < plan.services.len() && 0 <= m < services_view(plan.services@)[k].messages.len()
                        && !scan_ok(#[trigger] services_view(plan.services@)[k].messages[m], 0),
            },
        },
{
    let ghost ss = services_view(plan.services@);
    let ghost corr = opt_view_s(plan.correlation);
    let ts = match add_millis(plan.start, offset_ms) {
        Some(t) => t,
        None => return None,
    };
    let layout = layout_for(plan.format.as_str());
    let ts_str = format_ts(ts, "%Y-%m-%dT%H:%M:%S%.3fZ");
    let (svc_idx, level, t_idx, message) = match draw_message(&plan.services, rng) {
        Some(x) => x,
        None => return None,
    };
    let service = &plan.services[svc_idx];
    assert(service_view(*service) == ss[svc_idx as int]);
    let ln = level_name(level);
    let mut corr_id = String::new();
    let mut corr_txt: Vec<char> = Vec::new();
    match &plan.correlation {
        Some(prefix) => {
            corr_id = new_uuid();
            push_lit(&mut corr_txt, " ");
            push_str_of(&mut corr_txt, prefix);
            push_lit(&mut corr_txt, "=");
            push_str_of(&mut corr_txt, &corr_id);
        },
        None => {},
    }
    assert(corr_txt@ =~= corr_text(corr, corr_id@));
    let ghost base = LineDraw {
        svc: svc_idx as int,
        level,
        template: t_idx as int,
        message: message@,
        corr_id: corr_id@,
        pid: 1000,
        ip: Seq::empty(),
        method: Seq::empty(),
        path: Seq::empty(),
        status: 200,
        bytes: 100,
        agent: Seq::empty(),
        resp: Seq::empty(),
        upstream: Seq::empty(),
        csv_id: Seq::empty(),
    };
    let mut out: Vec<char> = Vec::new();
    let ghost mut d = base;
    match layout {
        LineLayout::Json => {
            push_lit(&mut out, "{\"level\":");
            push_str_of(&mut out, &json_string(ln));
            push_lit(&mut out, ",\"logger\":");
            push_str_of(&mut out, &json_string(service.name));
            push_lit(&mut out, ",\"msg\":");
            push_str_of(&mut out, &json_string(message.as_str()));
            push_lit(&mut out, ",\"timestamp\":");
            push_str_of(&mut out, &json_string(ts_str.as_str()));
            push_lit(&mut out, "}");
            assert(out@ =~= json_line(ln@, service.name@, message@, ts_str@));
        },
        LineLayout::Logfmt => {
            push_lit(&mut out, "level=");
            push_lit(&mut out, ln);
            push_lit(&mut out, " msg=\"");
            push_replaced(&mut out, message.as_str(), "\\\"");
            push_lit(&mut out, "\" logger=");
            push_lit(&mut out, service.name);
            push_lit(&mut out, " timestamp=\"");
            push_str_of(&mut out, &ts_str);
            push_lit(&mut out, "\"");
            push_chars(&mut out, &corr_txt);
            assert(out@ =~= logfmt_line(ln@, service.name@, message@, ts_str@, corr_txt@));
        },
        LineLayout::Syslog => {
            let (text, pid) = syslog_text(ts, ln, service.name, &message, &corr_txt, rng);
            out = text;
            proof {
                d = LineDraw { pid: pid as int, ..base };
            }
        },
        LineLayout::Apache => {
            let (head, Ghost(a)) = access_text(ts, rng);
            let agent = random_str(rng, 6);
            out = head;
            push_lit(&mut out, " \"-\" \"Mozilla/5.0 (compatible; Bot-");
            push_chars(&mut out, &agent);
            push_lit(&mut out, ")\"");
            push_chars(&mut out, &corr_txt);
            proof {
                d = LineDraw {
                    ip: a.ip,
                    method: a.method,
                    path: a.path,
                    status: a.status,
                    bytes: a.bytes,
                    agent: agent@,
                    ..base
                };
                assert(access_head(ts, d) == access_head(ts, a));
            }
        },
        LineLayout::Nginx => {
            let (head, Ghost(a)) = access_text(ts, rng);
            let (resp, upstream) = nginx_tail(rng);
            out = head;
            push_lit(&mut out, " \"");
            push_chars(&mut out, &upstream);
            push_lit(&mut out, "\" \"-\" \"");
            push_chars(&mut out, &resp);
            push_lit(&mut out, "\" \"-\" \"");
            push_chars(&mut out, &upstream);
            push_lit(&mut out, "\"");
            push_chars(&mut out, &corr_txt);
            proof {
                d = LineDraw {
                    ip: a.ip,
                    method: a.method,
                    path: a.path,
                    status: a.status,
                    bytes: a.bytes,
                    resp: resp@,
                    upstream: upstream@,
                    ..base
                };
                assert(access_head(ts, d) == access_head(ts, a));
            }
        },
        LineLayout::Csv => {
            let csv_id = match &plan.correlation {
                Some(_) => new_uuid(),
                None => String::new(),
            };
            push_lit(&mut out, "\"");
            push_str_of(&mut out, &ts_str);
            push_lit(&mut out, "\",\"");
            push_lit(&mut out, ln);
            push_lit(&mut out, "\",\"");
            push_lit(&mut out, service.name);
            push_lit(&mut out, "\",\"");
            push_replaced(&mut out, message.as_str(), "\"\"");
            push_lit(&mut out, "\",\"");
            push_str_of(&mut out, &csv_id);
            push_lit(&mut out, "\"");
            proof {
                reveal_strlit("");
                d = LineDraw { csv_id: csv_id@, ..base };
                assert(out@ =~= csv_gen_line(ts_str@, ln@, service.name@, message@, csv_id@));
            }
        },
        LineLayout::Plain | LineLayout::Bare => {
            push_str_of(&mut out, &ts_str);
            push_lit(&mut out, " [");
            push_lit(&mut out, ln);
            push_lit(&mut out, "] ");
            push_lit(&mut out, service.name);
            push_lit(&mut out, ": ");
            push_str_of(&mut out, &message);
            if layout == LineLayout::Plain {
                push_chars(&mut out, &corr_txt);
                assert(out@ =~= plain_line(ts_str@, ln@, service.name@, message@, corr_txt@));
            } else {
                assert(out@ =~= plain_line(ts_str@, ln@, service.name@, message@, Seq::empty()));
            }
        },
    }
    proof {
        assert(d.svc == svc_idx as int && d.level == level && d.message == message@);
        assert(out@ == spec_line(layout_of(plan.format@), ts, corr, ss, d));
        assert(draw_ok(layout_of(plan.format@), corr, ss, d));
    }
    Some(string_of(&out))
}

} // verus!
