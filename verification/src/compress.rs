//! Log compression: Drain-style template extraction over a fixed-depth parse tree.
use vstd::prelude::*;
use crate::models::{lit_hex, lit_ip, lit_num, lit_path, lit_uuid, num_end, num_starts};
use crate::order::{is_ranking, rank_by_count};
use crate::text::{
    append_all, chars_eq, chars_of, count_char, digits_end_at, dotted_end, dotted_end_at,
    hex_end, hex_end_at, parses_as_ipv4, path_end, path_end_at, push_lit, push_range,
    spec_parses_as_ipv4, copy, digit, hexdigit, is_digit, is_hex, slice, spec_lines, split_lines, starts_with, string_of, sv, vv,
};

verus! {

/// Output format for compression results.
#[derive(Clone, Copy, Debug, PartialEq, Eq, Structural)]
pub enum CompressFormat {
    Text,
    Json,
    Csv,
}

// ---------------------------------------------------------------------------
// Tokenizing
// ---------------------------------------------------------------------------

/// Scanner state while splitting a line on unquoted blanks:
/// (finished tokens, current token, inside a double-quoted run).
pub type TokState = (Seq<Seq<char>>, Seq<char>, bool);

pub open spec fn tok_step(st: TokState, c: char) -> TokState {
    if c == '"' {
        (st.0, st.1.push(c), !st.2)
    } else if (c == ' ' || c == '\t') && !st.2 {
        if st.1.len() > 0 {
            (st.0.push(st.1), Seq::empty(), st.2)
        } else {
            st
        }
    } else {
        (st.0, st.1.push(c), st.2)
    }
}

pub open spec fn tok_scan(s: Seq<char>, n: nat) -> TokState
    decreases n,
{
    if n == 0 || n > s.len() {
        (Seq::empty(), Seq::empty(), false)
    } else {
        tok_step(tok_scan(s, (n - 1) as nat), s[n - 1])
    }
}

pub open spec fn is_special(c: char) -> bool {
    c == '=' || c == ':' || c == '[' || c == ']' || c == '(' || c == ')' || c == ',' || c == ';'
}

pub open spec fn is_punct(c: char) -> bool {
    c == '-' || c == '_' || c == '/' || c == '.'
}

/// One step of splitting around separator characters: each separator becomes a token
/// of its own, the runs between them become tokens.
pub open spec fn sep_step(st: (Seq<Seq<char>>, Seq<char>), c: char, sep: bool) -> (
    Seq<Seq<char>>,
    Seq<char>,
) {
    if sep {
        let res = if st.1.len() > 0 {
            st.0.push(st.1)
        } else {
            st.0
        };
        (res.push(seq![c]), Seq::empty())
    } else {
        (st.0, st.1.push(c))
    }
}

pub open spec fn special_scan(s: Seq<char>, n: nat) -> (Seq<Seq<char>>, Seq<char>)
    decreases n,
{
    if n == 0 || n > s.len() {
        (Seq::empty(), Seq::empty())
    } else {
        let c = s[n - 1];
        sep_step(special_scan(s, (n - 1) as nat), c, is_special(c))
    }
}

pub open spec fn punct_scan(s: Seq<char>, n: nat) -> (Seq<Seq<char>>, Seq<char>)
    decreases n,
{
    if n == 0 || n > s.len() {
        (Seq::empty(), Seq::empty())
    } else {
        let c = s[n - 1];
        sep_step(punct_scan(s, (n - 1) as nat), c, is_punct(c))
    }
}

pub open spec fn close_run(st: (Seq<Seq<char>>, Seq<char>)) -> Seq<Seq<char>> {
    if st.1.len() > 0 {
        st.0.push(st.1)
    } else {
        st.0
    }
}

/// Splitting around `= : [ ] ( ) , ;`.
pub open spec fn spec_split_special(s: Seq<char>) -> Seq<Seq<char>> {
    close_run(special_scan(s, s.len()))
}

/// Splitting around `- _ / .`; a token with nothing to split stays whole.
pub open spec fn spec_split_punct(s: Seq<char>) -> Seq<Seq<char>> {
    let r = close_run(punct_scan(s, s.len()));
    if r.len() == 0 {
        seq![s]
    } else {
        r
    }
}

pub open spec fn flat_punct(ts: Seq<Seq<char>>) -> Seq<Seq<char>>
    decreases ts.len(),
{
    if ts.len() == 0 {
        Seq::empty()
    } else {
        flat_punct(ts.drop_last()) + spec_split_punct(ts.last())
    }
}

/// Blank-separated tokens (quotes keep blanks inside a token); only the last token is
/// further split around the special characters.
pub open spec fn raw_tokens(s: Seq<char>) -> Seq<Seq<char>> {
    let st = tok_scan(s, s.len());
    if st.1.len() > 0 {
        st.0 + spec_split_special(st.1)
    } else {
        st.0
    }
}

/// The tokens of a line: the raw tokens, each split around punctuation; a line
/// without tokens is its own single token.
pub open spec fn spec_tokenize(s: Seq<char>) -> Seq<Seq<char>> {
    let f = flat_punct(raw_tokens(s));
    if f.len() == 0 {
        seq![s]
    } else {
        f
    }
}

fn split_special_chars_chars(s: &Vec<char>) -> (r: Vec<Vec<char>>)
    ensures
        vv(r@) == spec_split_special(s@),
{
    let mut res: Vec<Vec<char>> = Vec::new();
    let mut cur: Vec<char> = Vec::new();
    let mut i: usize = 0;
    while i < s.len()
        invariant
            i <= s.len(),
            (vv(res@), cur@) == special_scan(s@, i as nat),
        decreases s.len() - i,
    {
        let c = s[i];
        if c == '=' || c == ':' || c == '[' || c == ']' || c == '(' || c == ')' || c == ','
            || c == ';' {
            if cur.len() > 0 {
                res.push(cur);
                cur = Vec::new();
            }
            let mut one: Vec<char> = Vec::new();
            one.push(c);
            res.push(one);
        } else {
            cur.push(c);
        }
        i = i + 1;
        proof {
            assert(vv(res@) =~= special_scan(s@, i as nat).0);
        }
    }
    if cur.len() > 0 {
        res.push(cur);
    }
    proof {
        assert(vv(res@) =~= spec_split_special(s@));
    }
    res
}

fn split_by_punctuation_chars(s: &Vec<char>) -> (r: Vec<Vec<char>>)
    ensures
        vv(r@) == spec_split_punct(s@),
{
    let mut res: Vec<Vec<char>> = Vec::new();
    let mut cur: Vec<char> = Vec::new();
    let mut i: usize = 0;
    while i < s.len()
        invariant
            i <= s.len(),
            (vv(res@), cur@) == punct_scan(s@, i as nat),
        decreases s.len() - i,
    {
        let c = s[i];
        if c == '-' || c == '_' || c == '/' || c == '.' {
            if cur.len() > 0 {
                res.push(cur);
                cur = Vec::new();
            }
            let mut one: Vec<char> = Vec::new();
            one.push(c);
            res.push(one);
        } else {
            cur.push(c);
        }
        i = i + 1;
        proof {
            assert(vv(res@) =~= punct_scan(s@, i as nat).0);
        }
    }
    if cur.len() > 0 {
        res.push(cur);
    }
    if res.len() == 0 {
        let mut whole: Vec<Vec<char>> = Vec::new();
        whole.push(copy(s));
        proof {
            assert(vv(whole@) =~= seq![s@]);
        }
        return whole;
    }
    proof {
        assert(vv(res@) =~= close_run(punct_scan(s@, s@.len())));
    }
    res
}

/// Character-level tokenizer behind [`tokenize`].
pub fn tokenize_chars(line: &Vec<char>) -> (r: Vec<Vec<char>>)
    ensures
        vv(r@) == spec_tokenize(line@),
{
    let mut tokens: Vec<Vec<char>> = Vec::new();
    let mut cur: Vec<char> = Vec::new();
    let mut in_quote = false;
    let mut i: usize = 0;
    while i < line.len()
        invariant
            i <= line.len(),
            (vv(tokens@), cur@, in_quote) == tok_scan(line@, i as nat),
        decreases line.len() - i,
    {
        let c = line[i];
        if c == '"' {
            in_quote = !in_quote;
            cur.push(c);
        } else if (c == ' ' || c == '\t') && !in_quote {
            if cur.len() > 0 {
                tokens.push(cur);
                cur = Vec::new();
            }
        } else {
            cur.push(c);
        }
        i = i + 1;
        proof {
            assert(vv(tokens@) =~= tok_scan(line@, i as nat).0);
        }
    }
    if cur.len() > 0 {
        let extra = split_special_chars_chars(&cur);
        append_all(&mut tokens, &extra);
    }
    let ghost raw = vv(tokens@);
    assert(raw == raw_tokens(line@));
    let mut fin: Vec<Vec<char>> = Vec::new();
    let mut j: usize = 0;
    while j < tokens.len()
        invariant
            j <= tokens.len(),
            vv(tokens@) == raw,
            vv(fin@) == flat_punct(raw.take(j as int)),
        decreases tokens.len() - j,
    {
        let parts = split_by_punctuation_chars(&tokens[j]);
        append_all(&mut fin, &parts);
        proof {
            assert(raw.take(j + 1).drop_last() =~= raw.take(j as int));
            assert(raw.take(j + 1).last() == raw[j as int]);
        }
        j = j + 1;
    }
    proof {
        assert(raw.take(tokens.len() as int) =~= raw);
    }
    if fin.len() == 0 {
        let mut whole: Vec<Vec<char>> = Vec::new();
        whole.push(copy(line));
        proof {
            assert(vv(whole@) =~= seq![line@]);
        }
        return whole;
    }
    fin
}

/// Converts character vectors to strings.
pub fn to_strings(v: &Vec<Vec<char>>) -> (r: Vec<String>)
    ensures
        sv(r@) == vv(v@),
{
    let mut r: Vec<String> = Vec::new();
    let mut i: usize = 0;
    while i < v.len()
        invariant
            i <= v.len(),
            sv(r@) == vv(v@).take(i as int),
        decreases v.len() - i,
    {
        let s = string_of(&v[i]);
        let ghost before = r@;
        r.push(s);
        proof {
            assert(sv(r@) =~= sv(before).push(s@));
            assert(vv(v@).take(i + 1) =~= vv(v@).take(i as int).push(v@[i as int]@));
        }
        i = i + 1;
    }
    assert(vv(v@).take(v.len() as int) =~= vv(v@));
    r
}

/// Tokenizes a log line into words (see [`spec_tokenize`]).
pub fn tokenize(line: &str) -> (r: Vec<String>)
    ensures
        sv(r@) == spec_tokenize(line@),
{
    let cs = chars_of(line);
    let t = tokenize_chars(&cs);
    to_strings(&t)
}

/// Splits a token around `= : [ ] ( ) , ;` (see [`spec_split_special`]).
pub fn split_special_chars(s: &str) -> (r: Vec<String>)
    ensures
        sv(r@) == spec_split_special(s@),
{
    let cs = chars_of(s);
    let t = split_special_chars_chars(&cs);
    to_strings(&t)
}

/// Splits a token around `- _ / .` (see [`spec_split_punct`]).
pub fn split_by_punctuation(token: &str) -> (r: Vec<String>)
    ensures
        sv(r@) == spec_split_punct(token@),
{
    let cs = chars_of(token);
    let t = split_by_punctuation_chars(&cs);
    to_strings(&t)
}

// ---------------------------------------------------------------------------
// Variable-token recognizers
// ---------------------------------------------------------------------------

/// `s` without its leading `-` characters.
pub open spec fn strip_dashes(s: Seq<char>) -> Seq<char>
    decreases s.len(),
{
    if s.len() > 0 && s[0] == '-' {
        strip_dashes(s.drop_first())
    } else {
        s
    }
}

/// A number: after leading dashes, a non-empty run of digits with at most one dot.
pub open spec fn spec_looks_like_number(s: Seq<char>) -> bool {
    let t = strip_dashes(s);
    &&& s.len() > 0
    &&& t.len() > 0
    &&& forall|i: int| 0 <= i < t.len() ==> is_digit(t[i]) || t[i] == '.'
    &&& forall|i: int, j: int| 0 <= i < j < t.len() ==> !(t[i] == '.' && t[j] == '.')
}

/// The 8-4-4-4-12 hyphenated hex layout of a UUID.
pub open spec fn spec_looks_like_uuid(s: Seq<char>) -> bool {
    &&& s.len() == 36
    &&& forall|i: int|
        0 <= i < 36 ==> if i == 8 || i == 13 || i == 18 || i == 23 {
            s[i] == '-'
        } else {
            is_hex(s[i])
        }
}

/// At least four hex digits, after an optional `0x` / `0X` prefix.
pub open spec fn spec_looks_like_hex(s: Seq<char>) -> bool {
    let prefixed = s.len() >= 2 && s[0] == '0' && (s[1] == 'x' || s[1] == 'X');
    let start: int = if prefixed {
        2
    } else {
        0
    };
    s.len() >= 4 && s.len() - start >= 4 && forall|i: int| start <= i < s.len() ==> is_hex(s[i])
}

/// Starts with `/`, `~/`, `./` or `../`.
pub open spec fn spec_looks_like_path(s: Seq<char>) -> bool {
    starts_with(s, seq!['/']) || starts_with(s, seq!['~', '/']) || starts_with(s, seq!['.', '/'])
        || starts_with(s, seq!['.', '.', '/'])
}

/// What std's `IpAddr` parser (`str::parse::<core::net::IpAddr>`) accepts.
pub uninterp spec fn spec_parses_as_ip(s: Seq<char>) -> bool;

/// Calls `str::parse::<core::net::IpAddr>` and reports whether it succeeded; the
/// contract names the outcome and states nothing more of std's address grammar.
#[verifier::external_body]
fn parses_as_ip(s: &str) -> (r: bool)
    ensures
        r == spec_parses_as_ip(s@),
{
    s.parse::<core::net::IpAddr>().is_ok()
}

pub fn looks_like_number(s: &str) -> (r: bool)
    ensures
        r == spec_looks_like_number(s@),
{
    let cs = chars_of(s);
    if cs.len() == 0 {
        return false;
    }
    let mut k: usize = 0;
    assert(cs@.skip(0) =~= cs@);
    while k < cs.len() && cs[k] == '-'
        invariant
            k <= cs.len(),
            strip_dashes(cs@) == strip_dashes(cs@.skip(k as int)),
        decreases cs.len() - k,
    {
        proof {
            assert(cs@.skip(k as int).drop_first() =~= cs@.skip(k + 1));
        }
        k = k + 1;
    }
    let t = slice(&cs, k, cs.len());
    proof {
        assert(cs@.skip(k as int) =~= t@);
        assert(strip_dashes(t@) == t@);
    }
    if t.len() == 0 {
        return false;
    }
    let mut dots: usize = 0;
    let mut i: usize = 0;
    while i < t.len()
        invariant
            i <= t.len(),
            strip_dashes(s@) == t@,
            s@.len() > 0,
            dots <= 1,
            forall|j: int| 0 <= j < i ==> is_digit(t@[j]) || t@[j] == '.',
            dots == 0 ==> forall|j: int| 0 <= j < i ==> t@[j] != '.',
            dots == 1 ==> exists|j: int| 0 <= j < i && t@[j] == '.',
            dots == 1 ==> forall|j1: int, j2: int|
                0 <= j1 < j2 < i ==> !(t@[j1] == '.' && t@[j2] == '.'),
        decreases t.len() - i,
    {
        let c = t[i];
        if c == '.' {
            if dots == 1 {
                proof {
                    let j = choose|j: int| 0 <= j < i && t@[j] == '.';
                    assert(t@[j] == '.' && t@[i as int] == '.');
                }
                return false;
            }
            dots = 1;
        } else if !digit(c) {
            assert(!(is_digit(t@[i as int]) || t@[i as int] == '.'));
            return false;
        }
        i = i + 1;
    }
    true
}

pub fn looks_like_ip(s: &str) -> (r: bool)
    ensures
        r == spec_parses_as_ip(s@),
{
    parses_as_ip(s)
}

pub fn uuid_chars(s: &Vec<char>) -> (r: bool)
    ensures
        r == spec_looks_like_uuid(s@),
{
    if s.len() != 36 {
        return false;
    }
    let mut i: usize = 0;
    while i < 36
        invariant
            s.len() == 36,
            i <= 36,
            forall|j: int|
                0 <= j < i ==> if j == 8 || j == 13 || j == 18 || j == 23 {
                    s@[j] == '-'
                } else {
                    is_hex(s@[j])
                },
        decreases 36 - i,
    {
        if i == 8 || i == 13 || i == 18 || i == 23 {
            if s[i] != '-' {
                return false;
            }
        } else if !hexdigit(s[i]) {
            return false;
        }
        i = i + 1;
    }
    true
}

pub fn looks_like_uuid(s: &str) -> (r: bool)
    ensures
        r == spec_looks_like_uuid(s@),
{
    let cs = chars_of(s);
    uuid_chars(&cs)
}

fn hex_chars(s: &Vec<char>) -> (r: bool)
    ensures
        r == spec_looks_like_hex(s@),
{
    if s.len() < 4 {
        return false;
    }
    let prefixed = s[0] == '0' && (s[1] == 'x' || s[1] == 'X');
    let start: usize = if prefixed {
        2
    } else {
        0
    };
    if s.len() - start < 4 {
        return false;
    }
    let mut i: usize = start;
    while i < s.len()
        invariant
            start <= i <= s.len(),
            s.len() >= 4,
            start == (if s@[0] == '0' && (s@[1] == 'x' || s@[1] == 'X') {
                2int
            } else {
                0int
            }),
            forall|j: int| start <= j < i ==> is_hex(s@[j]),
        decreases s.len() - i,
    {
        if !hexdigit(s[i]) {
            return false;
        }
        i = i + 1;
    }
    true
}

pub fn looks_like_hex(s: &str) -> (r: bool)
    ensures
        r == spec_looks_like_hex(s@),
{
    let cs = chars_of(s);
    hex_chars(&cs)
}

fn path_chars(s: &Vec<char>) -> (r: bool)
    ensures
        r == spec_looks_like_path(s@),
{
    let a = s.len() >= 1 && s[0] == '/';
    let b = s.len() >= 2 && s[0] == '~' && s[1] == '/';
    let c = s.len() >= 2 && s[0] == '.' && s[1] == '/';
    let d = s.len() >= 3 && s[0] == '.' && s[1] == '.' && s[2] == '/';
    proof {
        if s.len() >= 1 {
            assert(a == (s@.subrange(0, 1) == seq!['/'])) by {
                if s@[0] == '/' {
                    assert(s@.subrange(0, 1) =~= seq!['/']);
                } else {
                    assert(s@.subrange(0, 1)[0] != seq!['/'][0]);
                }
            }
        }
        if s.len() >= 2 {
            assert(b == (s@.subrange(0, 2) == seq!['~', '/'])) by {
                if b {
                    assert(s@.subrange(0, 2) =~= seq!['~', '/']);
                } else if s@[0] != '~' {
                    assert(s@.subrange(0, 2)[0] != seq!['~', '/'][0]);
                } else {
                    assert(s@.subrange(0, 2)[1] != seq!['~', '/'][1]);
                }
            }
            assert(c == (s@.subrange(0, 2) == seq!['.', '/'])) by {
                if c {
                    assert(s@.subrange(0, 2) =~= seq!['.', '/']);
                } else if s@[0] != '.' {
                    assert(s@.subrange(0, 2)[0] != seq!['.', '/'][0]);
                } else {
                    assert(s@.subrange(0, 2)[1] != seq!['.', '/'][1]);
                }
            }
        }
        if s.len() >= 3 {
            assert(d == (s@.subrange(0, 3) == seq!['.', '.', '/'])) by {
                if d {
                    assert(s@.subrange(0, 3) =~= seq!['.', '.', '/']);
                } else if s@[0] != '.' {
                    assert(s@.subrange(0, 3)[0] != seq!['.', '.', '/'][0]);
                } else if s@[1] != '.' {
                    assert(s@.subrange(0, 3)[1] != seq!['.', '.', '/'][1]);
                } else {
                    assert(s@.subrange(0, 3)[2] != seq!['.', '.', '/'][2]);
                }
            }
        }
    }
    a || b || c || d
}

pub fn looks_like_path(s: &str) -> (r: bool)
    ensures
        r == spec_looks_like_path(s@),
{
    let cs = chars_of(s);
    path_chars(&cs)
}

// ---------------------------------------------------------------------------
// Similarity
// ---------------------------------------------------------------------------

/// A ratio `num / den` of counts, used for similarity scores and thresholds.
#[derive(Clone, Copy, Debug, PartialEq, Eq, Structural)]
pub struct Ratio {
    pub num: u64,
    pub den: u64,
}

impl Ratio {
    pub open spec fn pair(self) -> (int, int) {
        (self.num as int, self.den as int)
    }
}

/// `a > b` for ratios given as (numerator, denominator) with positive denominators.
pub open spec fn rgt(a: (int, int), b: (int, int)) -> bool {
    a.0 * b.1 > b.0 * a.1
}

/// `a >= b` for ratios given as (numerator, denominator) with positive denominators.
pub open spec fn rge(a: (int, int), b: (int, int)) -> bool {
    a.0 * b.1 >= b.0 * a.1
}

fn cross(x: u64, y: u64) -> (r: u128)
    ensures
        r == x * y,
{
    assert((x as int) * (y as int) <= u128::MAX) by (nonlinear_arith)
        requires
            x <= u64::MAX,
            y <= u64::MAX,
    ;
    (x as u128) * (y as u128)
}

fn ratio_gt(a: Ratio, b: Ratio) -> (r: bool)
    ensures
        r == rgt(a.pair(), b.pair()),
{
    cross(a.num, b.den) > cross(b.num, a.den)
}

fn ratio_ge(a: Ratio, b: Ratio) -> (r: bool)
    ensures
        r == rge(a.pair(), b.pair()),
{
    cross(a.num, b.den) >= cross(b.num, a.den)
}

/// The wildcard token `*`.
pub open spec fn star() -> Seq<char> {
    seq!['*']
}

/// Two tokens agree when equal or when either is the wildcard.
pub open spec fn tok_agree(a: Seq<char>, b: Seq<char>) -> bool {
    a == b || a == star() || b == star()
}

/// Number of agreeing positions among the first `n`.
pub open spec fn agree_count(t1: Seq<Seq<char>>, t2: Seq<Seq<char>>, n: nat) -> nat
    decreases n,
{
    if n == 0 || n > t1.len() || n > t2.len() {
        0
    } else {
        agree_count(t1, t2, (n - 1) as nat) + if tok_agree(t1[n - 1], t2[n - 1]) {
            1nat
        } else {
            0nat
        }
    }
}

/// Token-level similarity: agreeing positions over the longer length (1 for two
/// empty lists); a length difference counts as disagreement.
pub open spec fn spec_similarity(t1: Seq<Seq<char>>, t2: Seq<Seq<char>>) -> (int, int) {
    let mx = if t1.len() >= t2.len() {
        t1.len()
    } else {
        t2.len()
    };
    let mn = if t1.len() <= t2.len() {
        t1.len()
    } else {
        t2.len()
    };
    if mx == 0 {
        (1, 1)
    } else {
        (agree_count(t1, t2, mn) as int, mx as int)
    }
}

fn is_star(t: &Vec<char>) -> (r: bool)
    ensures
        r == (t@ == star()),
{
    if t.len() == 1 && t[0] == '*' {
        assert(t@ =~= star());
        true
    } else {
        proof {
            if t@.len() == 1 {
                assert(t@[0] != star()[0]);
            }
        }
        false
    }
}

fn similarity_chars(t1: &Vec<Vec<char>>, t2: &Vec<Vec<char>>) -> (r: Ratio)
    ensures
        r.pair() == spec_similarity(vv(t1@), vv(t2@)),
        r.den > 0,
{
    let mx = if t1.len() >= t2.len() {
        t1.len()
    } else {
        t2.len()
    };
    let mn = if t1.len() <= t2.len() {
        t1.len()
    } else {
        t2.len()
    };
    if mx == 0 {
        return Ratio { num: 1, den: 1 };
    }
    let mut matches: usize = 0;
    let mut i: usize = 0;
    while i < mn
        invariant
            mn <= t1.len(),
            mn <= t2.len(),
            i <= mn,
            matches <= i,
            matches == agree_count(vv(t1@), vv(t2@), i as nat),
        decreases mn - i,
    {
        if chars_eq(&t1[i], &t2[i]) || is_star(&t1[i]) || is_star(&t2[i]) {
            matches = matches + 1;
        }
        i = i + 1;
    }
    Ratio { num: matches as u64, den: mx as u64 }
}

// ---------------------------------------------------------------------------
// The parse tree and its clusters
// ---------------------------------------------------------------------------

/// Configuration for the Drain algorithm.
#[derive(Clone, Copy, Debug)]
pub struct DrainConfig {
    /// Tree depth.
    pub depth: usize,
    /// Similarity threshold.
    pub similarity: Ratio,
    /// Max children per node.
    pub max_children: usize,
}

impl Default for DrainConfig {
    fn default() -> (r: Self)
        ensures
            r.depth == 4,
            r.similarity == (Ratio { num: 1, den: 2 }),
            r.max_children == 100,
    {
        DrainConfig { depth: 4, similarity: Ratio { num: 1, den: 2 }, max_children: 100 }
    }
}

/// A node view: key, child node indices, cluster id.
pub type NodeV = (Seq<char>, Seq<usize>, Option<usize>);

/// A cluster view: template tokens, count, sample lines.
pub type ClusterV = (Seq<Seq<char>>, usize, Seq<Seq<char>>);

struct DrainNode {
    key: Vec<char>,
    children: Vec<usize>,
    cluster_id: Option<usize>,
}

impl DrainNode {
    spec fn v(&self) -> NodeV {
        (self.key@, self.children@, self.cluster_id)
    }
}

struct Cluster {
    tokens: Vec<Vec<char>>,
    count: usize,
    samples: Vec<String>,
}

impl Cluster {
    spec fn v(&self) -> ClusterV {
        (vv(self.tokens@), self.count, sv(self.samples@))
    }
}

/// Drain log parser engine. The tree is kept in an arena: node 0 is the root and
/// children are named by their index.
pub struct DrainParser {
    depth: usize,
    similarity: Ratio,
    max_children: usize,
    nodes: Vec<DrainNode>,
    clusters: Vec<Cluster>,
    next_cluster_id: usize,
}

/// Every child index names a node and every cluster id names a cluster.
pub open spec fn nodes_wf(nodes: Seq<NodeV>, nclusters: nat) -> bool {
    &&& nodes.len() >= 1
    &&& forall|n: int, k: int|
        0 <= n < nodes.len() && 0 <= k < nodes[n].1.len() ==> (#[trigger] nodes[n].1[k] as int)
            < nodes.len()
    &&& forall|n: int|
        0 <= n < nodes.len() ==> match #[trigger] nodes[n].2 {
            Some(c) => c < nclusters,
            None => true,
        }
}

/// First child of a node, scanning its children from position `k`, whose key is `tok`
/// (or the wildcard, when `star_ok`).
pub open spec fn first_child(
    nodes: Seq<NodeV>,
    ch: Seq<usize>,
    tok: Seq<char>,
    star_ok: bool,
    k: int,
) -> Option<usize>
    decreases ch.len() - k,
{
    if k < 0 || k >= ch.len() {
        None
    } else if nodes[ch[k] as int].0 == tok || (star_ok && nodes[ch[k] as int].0 == star()) {
        Some(ch[k])
    } else {
        first_child(nodes, ch, tok, star_ok, k + 1)
    }
}

pub open spec fn sim_to(
    clusters: Seq<ClusterV>,
    tokens: Seq<Seq<char>>,
    cid: usize,
) -> (int, int) {
    spec_similarity(tokens, clusters[cid as int].0)
}

/// Among children from position `k`, the leaf cluster most similar to `tokens` that
/// beats the running best `(bs, bm)`.
pub open spec fn scan_best(
    nodes: Seq<NodeV>,
    clusters: Seq<ClusterV>,
    tokens: Seq<Seq<char>>,
    ch: Seq<usize>,
    k: int,
    bs: (int, int),
    bm: Option<usize>,
) -> ((int, int), Option<usize>)
    decreases ch.len() - k,
{
    if k < 0 || k >= ch.len() {
        (bs, bm)
    } else {
        match nodes[ch[k] as int].2 {
            Some(cid) => if rgt(sim_to(clusters, tokens, cid), bs) {
                scan_best(nodes, clusters, tokens, ch, k + 1, sim_to(clusters, tokens, cid), Some(cid))
            } else {
                scan_best(nodes, clusters, tokens, ch, k + 1, bs, bm)
            },
            None => scan_best(nodes, clusters, tokens, ch, k + 1, bs, bm),
        }
    }
}

/// Descending the tree from node `cur` at level `d`.
pub open spec fn search_from(
    nodes: Seq<NodeV>,
    clusters: Seq<ClusterV>,
    tokens: Seq<Seq<char>>,
    thr: (int, int),
    depth: int,
    d: int,
    cur: usize,
    bs: (int, int),
    bm: Option<usize>,
) -> Option<usize>
    decreases depth - d,
{
    if d < 0 || d >= depth {
        bm
    } else {
        match first_child(nodes, nodes[cur as int].1, tokens[d], true, 0) {
            None => if d == depth - 1 {
                scan_best(nodes, clusters, tokens, nodes[cur as int].1, 0, bs, bm).1
            } else {
                bm
            },
            Some(child) => {
                let hit = match nodes[child as int].2 {
                    Some(cid) => rge(sim_to(clusters, tokens, cid), thr),
                    None => false,
                };
                if hit {
                    nodes[child as int].2
                } else if d == depth - 1 {
                    let r = scan_best(nodes, clusters, tokens, nodes[child as int].1, 0, bs, bm);
                    search_from(nodes, clusters, tokens, thr, depth, d + 1, child, r.0, r.1)
                } else {
                    search_from(nodes, clusters, tokens, thr, depth, d + 1, child, bs, bm)
                }
            },
        }
    }
}

pub open spec fn min_nat(a: nat, b: nat) -> nat {
    if a <= b {
        a
    } else {
        b
    }
}

/// The cluster whose template matches `tokens`, if any.
pub open spec fn spec_search(
    nodes: Seq<NodeV>,
    clusters: Seq<ClusterV>,
    tokens: Seq<Seq<char>>,
    thr: (int, int),
    depth: nat,
) -> Option<usize> {
    search_from(nodes, clusters, tokens, thr, min_nat(depth, tokens.len()) as int, 0, 0, thr, None)
}

/// A new node with key `key` appended as the last child of `cur`.
pub open spec fn add_child(nodes: Seq<NodeV>, cur: usize, key: Seq<char>) -> Seq<NodeV> {
    nodes.update(
        cur as int,
        (nodes[cur as int].0, nodes[cur as int].1.push(nodes.len() as usize), nodes[cur as int].2),
    ).push((key, Seq::empty(), None))
}

/// Node `n` pointing at cluster `cid`, when `last`.
pub open spec fn mark(nodes: Seq<NodeV>, n: usize, cid: usize, last: bool) -> Seq<NodeV> {
    if last {
        nodes.update(n as int, (nodes[n as int].0, nodes[n as int].1, Some(cid)))
    } else {
        nodes
    }
}

/// Inserting the path of `tokens` below node `cur` from level `d`, the last node of
/// the path pointing at cluster `cid`.
pub open spec fn insert_from(
    nodes: Seq<NodeV>,
    tokens: Seq<Seq<char>>,
    depth: int,
    d: int,
    cur: usize,
    cid: usize,
    maxc: int,
) -> Seq<NodeV>
    decreases depth - d,
{
    if d < 0 || d >= depth {
        nodes
    } else {
        let tok = tokens[d];
        let ch = nodes[cur as int].1;
        let last = d == depth - 1;
        match first_child(nodes, ch, tok, false, 0) {
            Some(c) => insert_from(mark(nodes, c, cid, last), tokens, depth, d + 1, c, cid, maxc),
            None => if ch.len() < maxc {
                let c = nodes.len() as usize;
                insert_from(
                    mark(add_child(nodes, cur, tok), c, cid, last),
                    tokens,
                    depth,
                    d + 1,
                    c,
                    cid,
                    maxc,
                )
            } else {
                match first_child(nodes, ch, star(), false, 0) {
                    Some(w) => insert_from(
                        mark(nodes, w, cid, last),
                        tokens,
                        depth,
                        d + 1,
                        w,
                        cid,
                        maxc,
                    ),
                    None => if ch.len() <= maxc {
                        let c = nodes.len() as usize;
                        insert_from(
                            mark(add_child(nodes, cur, star()), c, cid, last),
                            tokens,
                            depth,
                            d + 1,
                            c,
                            cid,
                            maxc,
                        )
                    } else {
                        nodes
                    },
                }
            },
        }
    }
}

/// One line through the parser: its masked tokens either join the matching cluster
/// (count up, kept as a sample while fewer than three) or found a new cluster whose
/// path is inserted into the tree.
pub open spec fn spec_process(
    nodes: Seq<NodeV>,
    clusters: Seq<ClusterV>,
    line: Seq<char>,
    thr: (int, int),
    depth: nat,
    maxc: int,
) -> (Seq<NodeV>, Seq<ClusterV>) {
    let toks = masked(spec_tokenize(line));
    match spec_search(nodes, clusters, toks, thr, depth) {
        Some(cid) => {
            let c = clusters[cid as int];
            let samples = if c.2.len() < 3 {
                c.2.push(line)
            } else {
                c.2
            };
            (nodes, clusters.update(cid as int, (c.0, (c.1 + 1) as usize, samples)))
        },
        None => (
            insert_from(
                nodes,
                toks,
                min_nat(depth, toks.len()) as int,
                0,
                0,
                clusters.len() as usize,
                maxc,
            ),
            clusters.push((toks, 1, seq![line])),
        ),
    }
}

/// A token that looks like a variable value.
pub open spec fn spec_is_variable(t: Seq<char>) -> bool {
    spec_looks_like_number(t) || spec_parses_as_ip(t) || spec_looks_like_uuid(t)
        || spec_looks_like_hex(t) || spec_looks_like_path(t)
}

/// Variable tokens replaced by the wildcard.
pub open spec fn masked(ts: Seq<Seq<char>>) -> Seq<Seq<char>> {
    ts.map_values(
        |t: Seq<char>|
            if spec_is_variable(t) {
                star()
            } else {
                t
            },
    )
}

/// Total of the cluster counts.
pub open spec fn count_sum(cs: Seq<ClusterV>) -> nat
    decreases cs.len(),
{
    if cs.len() == 0 {
        0
    } else {
        count_sum(cs.drop_last()) + cs.last().1 as nat
    }
}

proof fn lemma_count_sum_push(cs: Seq<ClusterV>, c: ClusterV)
    ensures
        count_sum(cs.push(c)) == count_sum(cs) + c.1,
{
    assert(cs.push(c).drop_last() =~= cs);
}

proof fn lemma_count_le_sum(cs: Seq<ClusterV>, i: int)
    requires
        0 <= i < cs.len(),
    ensures
        cs[i].1 <= count_sum(cs),
    decreases cs.len(),
{
    if i < cs.len() - 1 {
        lemma_count_le_sum(cs.drop_last(), i);
    }
}

proof fn lemma_count_sum_update(cs: Seq<ClusterV>, i: int, c: ClusterV)
    requires
        0 <= i < cs.len(),
    ensures
        count_sum(cs.update(i, c)) == count_sum(cs) - cs[i].1 + c.1,
    decreases cs.len(),
{
    if i < cs.len() - 1 {
        assert(cs.update(i, c).drop_last() =~= cs.drop_last().update(i, c));
        lemma_count_sum_update(cs.drop_last(), i, c);
    } else {
        assert(cs.update(i, c).drop_last() =~= cs.drop_last());
    }
}

fn mask_tokens(ts: &Vec<Vec<char>>) -> (r: Vec<Vec<char>>)
    ensures
        vv(r@) == masked(vv(ts@)),
{
    let mut r: Vec<Vec<char>> = Vec::new();
    let mut i: usize = 0;
    while i < ts.len()
        invariant
            i <= ts.len(),
            vv(r@) == masked(vv(ts@)).take(i as int),
        decreases ts.len() - i,
    {
        let t = &ts[i];
        let s = string_of(t);
        let var = looks_like_number(s.as_str()) || looks_like_ip(s.as_str()) || uuid_chars(t)
            || hex_chars(t) || path_chars(t);
        let ghost before = r@;
        if var {
            let mut st: Vec<char> = Vec::new();
            st.push('*');
            assert(st@ =~= star());
            r.push(st);
        } else {
            r.push(copy(t));
        }
        proof {
            assert(vv(r@) =~= vv(before).push(r@.last()@));
            assert(masked(vv(ts@)).take(i + 1) =~= masked(vv(ts@)).take(i as int).push(
                masked(vv(ts@))[i as int],
            ));
        }
        i = i + 1;
    }
    assert(masked(vv(ts@)).take(ts.len() as int) =~= masked(vv(ts@)));
    r
}

impl DrainParser {
    pub closed spec fn nodes_v(&self) -> Seq<NodeV> {
        self.nodes@.map_values(|n: DrainNode| n.v())
    }

    pub closed spec fn clusters_v(&self) -> Seq<ClusterV> {
        self.clusters@.map_values(|c: Cluster| c.v())
    }

    pub closed spec fn threshold(&self) -> (int, int) {
        self.similarity.pair()
    }

    pub closed spec fn depth_v(&self) -> nat {
        self.depth as nat
    }

    pub closed spec fn max_children_v(&self) -> int {
        self.max_children as int
    }

    /// Internal consistency of the tree and the cluster list.
    pub closed spec fn wf(&self) -> bool {
        &&& nodes_wf(self.nodes_v(), self.clusters@.len())
        &&& self.next_cluster_id == self.clusters@.len()
        &&& forall|i: int| 0 <= i < self.clusters@.len() ==> #[trigger] self.clusters@[i].count >= 1
        &&& forall|i: int|
            0 <= i < self.clusters@.len() ==> #[trigger] self.clusters@[i].samples@.len() <= 3
    }

    /// Create a new Drain parser with the given configuration.
    pub fn new(config: DrainConfig) -> (r: Self)
        ensures
            r.wf(),
            r.nodes_v() == seq![(Seq::<char>::empty(), Seq::<usize>::empty(), None::<usize>)],
            r.clusters_v() == Seq::<ClusterV>::empty(),
            r.threshold() == config.similarity.pair(),
            r.depth_v() == config.depth,
            r.max_children_v() == config.max_children,
    {
        let root = DrainNode { key: Vec::new(), children: Vec::new(), cluster_id: None };
        let mut nodes: Vec<DrainNode> = Vec::new();
        nodes.push(root);
        let r = DrainParser {
            depth: config.depth,
            similarity: config.similarity,
            max_children: config.max_children,
            nodes,
            clusters: Vec::new(),
            next_cluster_id: 0,
        };
        assert(r.nodes_v() =~= seq![(Seq::<char>::empty(), Seq::<usize>::empty(), None::<usize>)]);
        assert(r.clusters_v() =~= Seq::<ClusterV>::empty());
        r
    }

    /// Token-level similarity between two token lists (see [`spec_similarity`]).
    pub fn calculate_similarity(&self, tokens1: &Vec<String>, tokens2: &Vec<String>) -> (r: Ratio)
        ensures
            r.pair() == spec_similarity(sv(tokens1@), sv(tokens2@)),
    {
        let a = strings_to_chars(tokens1);
        let b = strings_to_chars(tokens2);
        similarity_chars(&a, &b)
    }

    fn find_child(&self, n: usize, tok: &Vec<char>, star_ok: bool) -> (r: Option<usize>)
        requires
            self.wf(),
            n < self.nodes.len(),
        ensures
            r == first_child(self.nodes_v(), self.nodes_v()[n as int].1, tok@, star_ok, 0),
            r matches Some(c) ==> c < self.nodes.len(),
    {
        let ghost nv = self.nodes_v();
        let ch = &self.nodes[n].children;
        assert(nv[n as int].1 == ch@);
        let mut k: usize = 0;
        while k < ch.len()
            invariant
                nv == self.nodes_v(),
                nodes_wf(nv, self.clusters@.len()),
                n < nv.len(),
                nv[n as int].1 == ch@,
                k <= ch.len(),
                first_child(nv, ch@, tok@, star_ok, 0) == first_child(nv, ch@, tok@, star_ok, k as int),
            decreases ch.len() - k,
        {
            let c = ch[k];
            assert((nv[n as int].1[k as int] as int) < nv.len());
            let key = &self.nodes[c].key;
            assert(nv[c as int].0 == key@);
            if chars_eq(key, tok) || (star_ok && is_star(key)) {
                return Some(c);
            }
            k = k + 1;
        }
        None
    }

    fn scan_children(
        &self,
        tokens: &Vec<Vec<char>>,
        n: usize,
        bs: Ratio,
        bm: Option<usize>,
    ) -> (r: (Ratio, Option<usize>))
        requires
            self.wf(),
            n < self.nodes.len(),
            bm matches Some(c) ==> c < self.clusters.len(),
        ensures
            (r.0.pair(), r.1) == scan_best(
                self.nodes_v(),
                self.clusters_v(),
                vv(tokens@),
                self.nodes_v()[n as int].1,
                0,
                bs.pair(),
                bm,
            ),
            r.1 matches Some(c) ==> c < self.clusters.len(),
    {
        let ghost nv = self.nodes_v();
        let ghost cv = self.clusters_v();
        let ch = &self.nodes[n].children;
        assert(nv[n as int].1 == ch@);
        let mut best_sim = bs;
        let mut best = bm;
        let mut k: usize = 0;
        while k < ch.len()
            invariant
                nv == self.nodes_v(),
                cv == self.clusters_v(),
                nodes_wf(nv, self.clusters@.len()),
                n < nv.len(),
                nv[n as int].1 == ch@,
                k <= ch.len(),
                best matches Some(c) ==> c < self.clusters.len(),
                scan_best(nv, cv, vv(tokens@), ch@, 0, bs.pair(), bm) == scan_best(
                    nv,
                    cv,
                    vv(tokens@),
                    ch@,
                    k as int,
                    best_sim.pair(),
                    best,
                ),
            decreases ch.len() - k,
        {
            let c = ch[k];
            assert((nv[n as int].1[k as int] as int) < nv.len());
            assert(nv[c as int].2 == self.nodes@[c as int].cluster_id);
            match self.nodes[c].cluster_id {
                Some(cid) => {
                    assert(nv[c as int].2 == Some(cid));
                    assert(cid < self.clusters@.len());
                    assert(cv[cid as int].0 == vv(self.clusters@[cid as int].tokens@));
                    let sim = similarity_chars(tokens, &self.clusters[cid].tokens);
                    if ratio_gt(sim, best_sim) {
                        best_sim = sim;
                        best = Some(cid);
                    }
                },
                None => {},
            }
            k = k + 1;
        }
        (best_sim, best)
    }

    fn search_tree(&self, tokens: &Vec<Vec<char>>) -> (r: Option<usize>)
        requires
            self.wf(),
        ensures
            r == spec_search(
                self.nodes_v(),
                self.clusters_v(),
                vv(tokens@),
                self.threshold(),
                self.depth_v(),
            ),
            r matches Some(c) ==> c < self.clusters.len(),
    {
        let ghost nv = self.nodes_v();
        let ghost cv = self.clusters_v();
        let ghost tv = vv(tokens@);
        let depth = if self.depth <= tokens.len() {
            self.depth
        } else {
            tokens.len()
        };
        let mut cur: usize = 0;
        let mut best_sim = self.similarity;
        let mut best: Option<usize> = None;
        let mut d: usize = 0;
        while d < depth
            invariant
                nv == self.nodes_v(),
                cv == self.clusters_v(),
                tv == vv(tokens@),
                self.wf(),
                depth <= tokens.len(),
                depth == min_nat(self.depth_v(), tv.len()),
                d <= depth,
                cur < self.nodes.len(),
                best matches Some(c) ==> c < self.clusters.len(),
                spec_search(nv, cv, tv, self.threshold(), self.depth_v()) == search_from(
                    nv,
                    cv,
                    tv,
                    self.threshold(),
                    depth as int,
                    d as int,
                    cur,
                    best_sim.pair(),
                    best,
                ),
            decreases depth - d,
        {
            let found = self.find_child(cur, &tokens[d], true);
            match found {
                None => {
                    if d == depth - 1 {
                        let r = self.scan_children(tokens, cur, best_sim, best);
                        return r.1;
                    }
                    return best;
                },
                Some(c) => {
                    assert(nv[c as int].2 == self.nodes@[c as int].cluster_id);
                    match self.nodes[c].cluster_id {
                        Some(cid) => {
                            assert(nv[c as int].2 == Some(cid));
                            assert(cid < self.clusters@.len());
                            assert(cv[cid as int].0 == vv(self.clusters@[cid as int].tokens@));
                            let sim = similarity_chars(tokens, &self.clusters[cid].tokens);
                            if ratio_ge(sim, self.similarity) {
                                return Some(cid);
                            }
                        },
                        None => {},
                    }
                    if d == depth - 1 {
                        let r = self.scan_children(tokens, c, best_sim, best);
                        best_sim = r.0;
                        best = r.1;
                    }
                    cur = c;
                },
            }
            d = d + 1;
        }
        best
    }
}

fn strings_to_chars(v: &Vec<String>) -> (r: Vec<Vec<char>>)
    ensures
        vv(r@) == sv(v@),
{
    let mut r: Vec<Vec<char>> = Vec::new();
    let mut i: usize = 0;
    while i < v.len()
        invariant
            i <= v.len(),
            vv(r@) == sv(v@).take(i as int),
        decreases v.len() - i,
    {
        let c = chars_of(v[i].as_str());
        let ghost before = r@;
        r.push(c);
        proof {
            assert(vv(r@) =~= vv(before).push(c@));
            assert(sv(v@).take(i + 1) =~= sv(v@).take(i as int).push(v@[i as int]@));
        }
        i = i + 1;
    }
    assert(sv(v@).take(v.len() as int) =~= sv(v@));
    r
}

fn copy_usizes(v: &Vec<usize>) -> (r: Vec<usize>)
    ensures
        r@ == v@,
{
    let mut r: Vec<usize> = Vec::new();
    let mut i: usize = 0;
    while i < v.len()
        invariant
            i <= v.len(),
            r@ == v@.take(i as int),
        decreases v.len() - i,
    {
        r.push(v[i]);
        i = i + 1;
        assert(r@ =~= v@.take(i as int));
    }
    assert(v@.take(v.len() as int) =~= v@);
    r
}

pub(crate) fn copy_strings(v: &Vec<String>) -> (r: Vec<String>)
    ensures
        sv(r@) == sv(v@),
{
    let mut r: Vec<String> = Vec::new();
    let mut i: usize = 0;
    while i < v.len()
        invariant
            i <= v.len(),
            sv(r@) == sv(v@).take(i as int),
        decreases v.len() - i,
    {
        let c = v[i].clone();
        let ghost before = r@;
        r.push(c);
        proof {
            assert(sv(r@) =~= sv(before).push(c@));
            assert(sv(v@).take(i + 1) =~= sv(v@).take(i as int).push(v@[i as int]@));
        }
        i = i + 1;
    }
    assert(sv(v@).take(v.len() as int) =~= sv(v@));
    r
}

fn copy_tokens(v: &Vec<Vec<char>>) -> (r: Vec<Vec<char>>)
    ensures
        vv(r@) == vv(v@),
{
    let mut r: Vec<Vec<char>> = Vec::new();
    append_all(&mut r, v);
    assert(vv(r@) =~= vv(v@));
    r
}

fn star_vec() -> (r: Vec<char>)
    ensures
        r@ == star(),
{
    let mut st: Vec<char> = Vec::new();
    st.push('*');
    assert(st@ =~= star());
    st
}

impl DrainParser {
    fn add_child_node(&mut self, cur: usize, key: Vec<char>) -> (r: usize)
        requires
            old(self).wf(),
            cur < old(self).nodes.len(),
        ensures
            final(self).wf(),
            final(self).nodes_v() == add_child(old(self).nodes_v(), cur, key@),
            r == old(self).nodes.len(),
            r < final(self).nodes.len(),
            final(self).clusters == old(self).clusters,
            final(self).depth == old(self).depth,
            final(self).similarity == old(self).similarity,
            final(self).max_children == old(self).max_children,
    {
        let ghost nv = self.nodes_v();
        let idx = self.nodes.len();
        let mut ch = copy_usizes(&self.nodes[cur].children);
        ch.push(idx);
        let upd = DrainNode {
            key: copy(&self.nodes[cur].key),
            children: ch,
            cluster_id: self.nodes[cur].cluster_id,
        };
        self.nodes.set(cur, upd);
        self.nodes.push(DrainNode { key, children: Vec::new(), cluster_id: None });
        proof {
            assert(self.nodes_v() =~= add_child(nv, cur, key@));
            let nn = self.nodes_v();
            assert forall|n: int, k: int|
                0 <= n < nn.len() && 0 <= k < nn[n].1.len() implies (#[trigger] nn[n].1[k] as int)
                < nn.len() by {
                if n != cur as int && n < nv.len() {
                    assert(nn[n] == nv[n]);
                } else if n == cur as int && k < nv[n].1.len() {
                    assert(nn[n].1[k] == nv[n].1[k]);
                }
            }
            assert forall|n: int| 0 <= n < nn.len() implies match #[trigger] nn[n].2 {
                Some(c) => c < self.clusters@.len(),
                None => true,
            } by {
                if n < nv.len() {
                    assert(nn[n].2 == nv[n].2);
                }
            }
        }
        idx
    }

    fn set_cluster(&mut self, n: usize, cid: usize)
        requires
            old(self).wf(),
            n < old(self).nodes.len(),
            cid < old(self).clusters.len(),
        ensures
            final(self).wf(),
            final(self).nodes_v() == mark(old(self).nodes_v(), n, cid, true),
            final(self).nodes.len() == old(self).nodes.len(),
            final(self).clusters == old(self).clusters,
            final(self).depth == old(self).depth,
            final(self).similarity == old(self).similarity,
            final(self).max_children == old(self).max_children,
    {
        let ghost nv = self.nodes_v();
        let upd = DrainNode {
            key: copy(&self.nodes[n].key),
            children: copy_usizes(&self.nodes[n].children),
            cluster_id: Some(cid),
        };
        self.nodes.set(n, upd);
        proof {
            assert(self.nodes_v() =~= mark(nv, n, cid, true));
            let nn = self.nodes_v();
            assert forall|m: int, k: int|
                0 <= m < nn.len() && 0 <= k < nn[m].1.len() implies (#[trigger] nn[m].1[k] as int)
                < nn.len() by {
                assert(nn[m].1 == nv[m].1);
            }
            assert forall|m: int| 0 <= m < nn.len() implies match #[trigger] nn[m].2 {
                Some(c) => c < self.clusters@.len(),
                None => true,
            } by {
                if m != n as int {
                    assert(nn[m].2 == nv[m].2);
                }
            }
        }
    }

    fn insert_into_tree(&mut self, tokens: &Vec<Vec<char>>, cid: usize)
        requires
            old(self).wf(),
            cid < old(self).clusters.len(),
        ensures
            final(self).wf(),
            final(self).nodes_v() == insert_from(
                old(self).nodes_v(),
                vv(tokens@),
                min_nat(old(self).depth_v(), tokens@.len()) as int,
                0,
                0,
                cid,
                old(self).max_children_v(),
            ),
            final(self).clusters == old(self).clusters,
            final(self).depth == old(self).depth,
            final(self).similarity == old(self).similarity,
            final(self).max_children == old(self).max_children,
    {
        let ghost tv = vv(tokens@);
        let ghost start = self.nodes_v();
        let ghost clusters0 = self.clusters;
        let ghost depth0 = self.depth;
        let ghost sim0 = self.similarity;
        let ghost maxc0 = self.max_children;
        let depth = if self.depth <= tokens.len() {
            self.depth
        } else {
            tokens.len()
        };
        let mut cur: usize = 0;
        let mut d: usize = 0;
        while d < depth
            invariant
                tv == vv(tokens@),
                start == old(self).nodes_v(),
                clusters0 == old(self).clusters,
                depth0 == old(self).depth,
                sim0 == old(self).similarity,
                maxc0 == old(self).max_children,
                self.wf(),
                cid < self.clusters.len(),
                self.clusters == clusters0,
                self.depth == depth0,
                self.similarity == sim0,
                self.max_children == maxc0,
                depth <= tokens.len(),
                depth == min_nat(self.depth_v(), tv.len()),
                d <= depth,
                cur < self.nodes.len(),
                insert_from(start, tv, depth as int, 0, 0, cid, self.max_children_v())
                    == insert_from(
                    self.nodes_v(),
                    tv,
                    depth as int,
                    d as int,
                    cur,
                    cid,
                    self.max_children_v(),
                ),
            decreases depth - d,
        {
            let last = d == depth - 1;
            let ghost nv = self.nodes_v();
            assert(nv[cur as int].1 == self.nodes@[cur as int].children@);
            let found = self.find_child(cur, &tokens[d], false);
            let next_opt: Option<usize> = match found {
                Some(c) => Some(c),
                None => {
                    if self.nodes[cur].children.len() < self.max_children {
                        Some(self.add_child_node(cur, copy(&tokens[d])))
                    } else {
                        let st = star_vec();
                        let w = self.find_child(cur, &st, false);
                        match w {
                            Some(w) => Some(w),
                            None => {
                                if self.nodes[cur].children.len() <= self.max_children {
                                    Some(self.add_child_node(cur, st))
                                } else {
                                    None
                                }
                            },
                        }
                    }
                },
            };
            let next = match next_opt {
                Some(n) => n,
                None => {
                    assert(insert_from(nv, tv, depth as int, d as int, cur, cid, self.max_children_v()) == nv);
                    return ;
                },
            };
            if last {
                self.set_cluster(next, cid);
            }
            cur = next;
            d = d + 1;
        }
    }

    fn process_line(&mut self, line: &Vec<char>)
        requires
            old(self).wf(),
            count_sum(old(self).clusters_v()) < usize::MAX,
        ensures
            final(self).wf(),
            (final(self).nodes_v(), final(self).clusters_v()) == spec_process(
                old(self).nodes_v(),
                old(self).clusters_v(),
                line@,
                old(self).threshold(),
                old(self).depth_v(),
                old(self).max_children_v(),
            ),
            count_sum(final(self).clusters_v()) == count_sum(old(self).clusters_v()) + 1,
            spec_search(
                old(self).nodes_v(),
                old(self).clusters_v(),
                masked(spec_tokenize(line@)),
                old(self).threshold(),
                old(self).depth_v(),
            ) matches Some(c) ==> c < old(self).clusters_v().len(),
            final(self).depth == old(self).depth,
            final(self).similarity == old(self).similarity,
            final(self).max_children == old(self).max_children,
    {
        let ghost cv = self.clusters_v();
        let tokens = tokenize_chars(line);
        let processed = mask_tokens(&tokens);
        let matched = self.search_tree(&processed);
        assert(vv(processed@) == masked(spec_tokenize(line@)));
        match matched {
            Some(cid) => {
                proof {
                    lemma_count_le_sum(cv, cid as int);
                }
                let old_c = &self.clusters[cid];
                assert(cv[cid as int] == old_c.v());
                let mut samples = copy_strings(&old_c.samples);
                if samples.len() < 3 {
                    let ls = string_of(line);
                    let ghost before = samples@;
                    samples.push(ls);
                    assert(sv(samples@) =~= sv(before).push(line@));
                }
                let updated = Cluster {
                    tokens: copy_tokens(&old_c.tokens),
                    count: old_c.count + 1,
                    samples,
                };
                let ghost nc = updated.v();
                self.clusters.set(cid, updated);
                proof {
                    assert(self.clusters_v() =~= cv.update(cid as int, nc));
                    lemma_count_sum_update(cv, cid as int, nc);
                }
            },
            None => {
                let cid = self.next_cluster_id;
                let mut samples: Vec<String> = Vec::new();
                samples.push(string_of(line));
                let c = Cluster { tokens: copy_tokens(&processed), count: 1, samples };
                let ghost nc = c.v();
                assert(nc == (vv(processed@), 1usize, seq![line@])) by {
                    assert(sv(c.samples@) =~= seq![line@]);
                }
                self.clusters.push(c);
                let n = self.clusters.len();
                self.next_cluster_id = n;
                proof {
                    assert(self.clusters_v() =~= cv.push(nc));
                    lemma_count_sum_push(cv, nc);
                    let nv = self.nodes_v();
                    assert forall|m: int| 0 <= m < nv.len() implies match #[trigger] nv[m].2 {
                        Some(c) => c < self.clusters@.len(),
                        None => true,
                    } by {
                        assert(nv[m].2 == self.nodes@[m].cluster_id);
                    }
                }
                self.insert_into_tree(&processed, cid);
            },
        }
    }
}

// ---------------------------------------------------------------------------
// Results
// ---------------------------------------------------------------------------

/// A single log template (cluster of similar log messages). Its share of the total
/// is `count / total_lines` of the [`DrainResult`].
#[derive(Debug)]
pub struct LogTemplate {
    /// The template tokens joined by spaces.
    pub template: String,
    /// Number of log lines matching this template.
    pub count: usize,
    /// Sample lines (up to 3).
    pub samples: Vec<String>,
}

impl View for LogTemplate {
    type V = (Seq<char>, usize, Seq<Seq<char>>);

    open spec fn view(&self) -> Self::V {
        (self.template@, self.count, sv(self.samples@))
    }
}

/// Compressed log output with templates and their frequencies.
#[derive(Debug)]
pub struct DrainResult {
    /// Total log lines processed.
    pub total_lines: usize,
    /// Number of unique templates found.
    pub template_count: usize,
    /// Templates by descending count.
    pub templates: Vec<LogTemplate>,
}

/// Tokens joined by single spaces.
pub open spec fn join_space(ts: Seq<Seq<char>>) -> Seq<char>
    decreases ts.len(),
{
    if ts.len() == 0 {
        Seq::empty()
    } else if ts.len() == 1 {
        ts[0]
    } else {
        join_space(ts.drop_last()) + seq![' '] + ts.last()
    }
}

/// The template a cluster reports.
pub open spec fn template_of(c: ClusterV) -> (Seq<char>, usize, Seq<Seq<char>>) {
    (join_space(c.0), c.1, c.2)
}

pub open spec fn counts_of(cs: Seq<ClusterV>) -> Seq<usize> {
    cs.map_values(|c: ClusterV| c.1)
}

/// Number of non-empty lines.
pub open spec fn count_nonempty(lines: Seq<Seq<char>>) -> nat
    decreases lines.len(),
{
    if lines.len() == 0 {
        0
    } else {
        count_nonempty(lines.drop_last()) + if lines.last().len() > 0 {
            1nat
        } else {
            0nat
        }
    }
}

/// The cluster a line joins: the one the search finds, else a new one at the end.
pub open spec fn assigned(
    nodes: Seq<NodeV>,
    clusters: Seq<ClusterV>,
    line: Seq<char>,
    thr: (int, int),
    depth: nat,
) -> int {
    match spec_search(nodes, clusters, masked(spec_tokenize(line)), thr, depth) {
        Some(c) => c as int,
        None => clusters.len() as int,
    }
}

/// The lines, in order, that a run from `(n0, c0)` over `lines` puts in cluster `k`.
pub open spec fn members(
    n0: Seq<NodeV>,
    c0: Seq<ClusterV>,
    lines: Seq<Seq<char>>,
    thr: (int, int),
    depth: nat,
    maxc: int,
    k: int,
) -> Seq<Seq<char>>
    decreases lines.len(),
{
    if lines.len() == 0 {
        Seq::empty()
    } else {
        let prev = members(n0, c0, lines.drop_last(), thr, depth, maxc, k);
        let st = spec_run(n0, c0, lines.drop_last(), thr, depth, maxc);
        if lines.last().len() > 0 && assigned(st.0, st.1, lines.last(), thr, depth) == k {
            prev.push(lines.last())
        } else {
            prev
        }
    }
}

/// Samples `s` topped up with the lines of `m`, in order, while fewer than three.
pub open spec fn fill3(s: Seq<Seq<char>>, m: Seq<Seq<char>>) -> Seq<Seq<char>>
    decreases m.len(),
{
    if m.len() == 0 {
        s
    } else {
        let f = fill3(s, m.drop_last());
        if f.len() < 3 {
            f.push(m.last())
        } else {
            f
        }
    }
}

/// The count of cluster `k` before a run (0 for a cluster the run creates).
pub open spec fn count_before(c0: Seq<ClusterV>, k: int) -> nat {
    if 0 <= k < c0.len() {
        c0[k].1 as nat
    } else {
        0
    }
}

/// The samples of cluster `k` before a run (none for a cluster the run creates).
pub open spec fn samples_before(c0: Seq<ClusterV>, k: int) -> Seq<Seq<char>> {
    if 0 <= k < c0.len() {
        c0[k].2
    } else {
        Seq::empty()
    }
}

/// A new cluster's samples are the first of its lines, at most three.
pub proof fn lemma_fill3_first(m: Seq<Seq<char>>)
    ensures
        fill3(Seq::empty(), m) == m.take(if m.len() < 3 { m.len() as int } else { 3 }),
    decreases m.len(),
{
    if m.len() > 0 {
        lemma_fill3_first(m.drop_last());
        let f = fill3(Seq::empty(), m.drop_last());
        if m.len() <= 3 {
            assert(f.push(m.last()) =~= m.take(m.len() as int));
        } else {
            assert(m.drop_last().take(3) =~= m.take(3));
        }
    }
}

/// All lines through the parser in order; empty lines are skipped.
pub open spec fn spec_run(
    nodes: Seq<NodeV>,
    clusters: Seq<ClusterV>,
    lines: Seq<Seq<char>>,
    thr: (int, int),
    depth: nat,
    maxc: int,
) -> (Seq<NodeV>, Seq<ClusterV>)
    decreases lines.len(),
{
    if lines.len() == 0 {
        (nodes, clusters)
    } else {
        let st = spec_run(nodes, clusters, lines.drop_last(), thr, depth, maxc);
        if lines.last().len() == 0 {
            st
        } else {
            spec_process(st.0, st.1, lines.last(), thr, depth, maxc)
        }
    }
}

fn join_tokens(ts: &Vec<Vec<char>>) -> (r: Vec<char>)
    ensures
        r@ == join_space(vv(ts@)),
{
    let mut r: Vec<char> = Vec::new();
    let mut i: usize = 0;
    while i < ts.len()
        invariant
            i <= ts.len(),
            r@ == join_space(vv(ts@).take(i as int)),
        decreases ts.len() - i,
    {
        let ghost before = r@;
        if i > 0 {
            r.push(' ');
        }
        let t = &ts[i];
        let mut k: usize = 0;
        let ghost mid = r@;
        while k < t.len()
            invariant
                k <= t.len(),
                r@ == mid + t@.take(k as int),
            decreases t.len() - k,
        {
            r.push(t[k]);
            k = k + 1;
            assert(r@ =~= mid + t@.take(k as int));
        }
        proof {
            let tv = vv(ts@);
            assert(t@.take(t.len() as int) =~= t@);
            assert(tv.take(i + 1).drop_last() =~= tv.take(i as int));
            assert(tv.take(i + 1).last() == t@);
            if i == 0 {
                assert(r@ =~= join_space(tv.take(1)));
            } else {
                assert(r@ =~= join_space(tv.take(i + 1)));
            }
        }
        i = i + 1;
    }
    assert(vv(ts@).take(ts.len() as int) =~= vv(ts@));
    r
}

impl DrainParser {
    /// Runs the Drain algorithm over the lines of `content`; returns the templates
    /// found so far, by descending count (ties in order of creation).
    pub fn parse(&mut self, content: &str) -> (res: DrainResult)
        requires
            old(self).wf(),
            count_sum(old(self).clusters_v()) + spec_lines(content@).len() <= usize::MAX,
        ensures
            final(self).wf(),
            (final(self).nodes_v(), final(self).clusters_v()) == spec_run(
                old(self).nodes_v(),
                old(self).clusters_v(),
                spec_lines(content@),
                old(self).threshold(),
                old(self).depth_v(),
                old(self).max_children_v(),
            ),
            final(self).threshold() == old(self).threshold(),
            final(self).depth_v() == old(self).depth_v(),
            final(self).max_children_v() == old(self).max_children_v(),
            res.total_lines == count_nonempty(spec_lines(content@)),
            res.template_count == res.templates.len(),
            res.templates.len() == final(self).clusters_v().len(),
            exists|rank: Seq<usize>|
                #![trigger is_ranking(counts_of(final(self).clusters_v()), rank)]
                is_ranking(counts_of(final(self).clusters_v()), rank) && forall|k: int|
                    0 <= k < rank.len() ==> #[trigger] res.templates@[k]@ == template_of(
                        final(self).clusters_v()[rank[k] as int],
                    ),
            count_sum(final(self).clusters_v()) == count_sum(old(self).clusters_v())
                + res.total_lines,
            forall|k: int|
                0 <= k < final(self).clusters_v().len() ==> {
                    let m = members(
                        old(self).nodes_v(),
                        old(self).clusters_v(),
                        spec_lines(content@),
                        old(self).threshold(),
                        old(self).depth_v(),
                        old(self).max_children_v(),
                        k,
                    );
                    &&& (#[trigger] final(self).clusters_v()[k]).1 == count_before(
                        old(self).clusters_v(),
                        k,
                    ) + m.len()
                    &&& final(self).clusters_v()[k].2 == fill3(
                        samples_before(old(self).clusters_v(), k),
                        m,
                    )
                },
            old(self).clusters_v().len() == 0 ==> forall|k: int|
                0 <= k < final(self).clusters_v().len() ==> {
                    let m = members(
                        old(self).nodes_v(),
                        old(self).clusters_v(),
                        spec_lines(content@),
                        old(self).threshold(),
                        old(self).depth_v(),
                        old(self).max_children_v(),
                        k,
                    );
                    &&& (#[trigger] final(self).clusters_v()[k]).1 == m.len()
                    &&& final(self).clusters_v()[k].2 == m.take(
                        if m.len() < 3 {
                            m.len() as int
                        } else {
                            3
                        },
                    )
                },
    {
        let lines = split_lines(content);
        let ghost lv = vv(lines@);
        let ghost n0 = self.nodes_v();
        let ghost c0 = self.clusters_v();
        let mut total: usize = 0;
        let mut i: usize = 0;
        while i < lines.len()
            invariant
                lv == vv(lines@),
                lv == spec_lines(content@),
                n0 == old(self).nodes_v(),
                c0 == old(self).clusters_v(),
                self.wf(),
                i <= lines.len(),
                total <= i,
                count_sum(self.clusters_v()) == count_sum(c0) + total,
                count_sum(c0) + lines.len() <= usize::MAX,
                total == count_nonempty(lv.take(i as int)),
                self.threshold() == old(self).threshold(),
                self.depth_v() == old(self).depth_v(),
                self.max_children_v() == old(self).max_children_v(),
                (self.nodes_v(), self.clusters_v()) == spec_run(
                    n0,
                    c0,
                    lv.take(i as int),
                    self.threshold(),
                    self.depth_v(),
                    self.max_children_v(),
                ),
                c0.len() <= self.clusters_v().len(),
                forall|k: int|
                    0 <= k < self.clusters_v().len() ==> {
                        let m = members(
                            n0,
                            c0,
                            lv.take(i as int),
                            old(self).threshold(),
                            old(self).depth_v(),
                            old(self).max_children_v(),
                            k,
                        );
                        &&& (#[trigger] self.clusters_v()[k]).1 == count_before(c0, k) + m.len()
                        &&& self.clusters_v()[k].2 == fill3(samples_before(c0, k), m)
                    },
                forall|k: int|
                    k >= self.clusters_v().len() ==> (#[trigger] members(
                        n0,
                        c0,
                        lv.take(i as int),
                        old(self).threshold(),
                        old(self).depth_v(),
                        old(self).max_children_v(),
                        k,
                    )).len() == 0,
            decreases lines.len() - i,
        {
            proof {
                assert(lv.take(i + 1).drop_last() =~= lv.take(i as int));
                assert(lv.take(i + 1).last() == lines@[i as int]@);
            }
            let ghost pc = self.clusters_v();
            let ghost pn = self.nodes_v();
            if lines[i].len() > 0 {
                total = total + 1;
                proof {
                    assert forall|k: int| 0 <= k < pc.len() implies (#[trigger] pc[k]).1 as int
                        <= count_sum(pc) by {
                        lemma_count_le_sum(pc, k);
                    }
                }
                self.process_line(&lines[i]);
                proof {
                    let thr = old(self).threshold();
                    let dp = old(self).depth_v();
                    let mx = old(self).max_children_v();
                    let line = lines@[i as int]@;
                    let a = assigned(pn, pc, line, thr, dp);
                    let nc = self.clusters_v();
                    assert forall|k: int| 0 <= k < nc.len() implies {
                        let m = members(n0, c0, lv.take(i + 1), thr, dp, mx, k);
                        &&& (#[trigger] nc[k]).1 == count_before(c0, k) + m.len()
                        &&& nc[k].2 == fill3(samples_before(c0, k), m)
                    } by {
                        let m0 = members(n0, c0, lv.take(i as int), thr, dp, mx, k);
                        let toks = masked(spec_tokenize(line));
                        assert(spec_run(n0, c0, lv.take(i as int), thr, dp, mx) == (pn, pc));
                        if k == a {
                            assert(members(n0, c0, lv.take(i + 1), thr, dp, mx, k) == m0.push(line));
                            assert(m0.push(line).drop_last() =~= m0);
                            match spec_search(pn, pc, toks, thr, dp) {
                                Some(cid) => {
                                    assert(cid < pc.len());
                                    let c = pc[cid as int];
                                    assert(c.1 as int <= count_sum(pc));
                                    assert(nc[k] == (c.0, (c.1 + 1) as usize, if c.2.len() < 3 {
                                        c.2.push(line)
                                    } else {
                                        c.2
                                    }));
                                    assert(c.1 == count_before(c0, k) + m0.len());
                                    assert(c.2 == fill3(samples_before(c0, k), m0));
                                },
                                None => {
                                    assert(k == pc.len());
                                    assert(nc[k] == (toks, 1usize, seq![line]));
                                    assert(m0.len() == 0);
                                    assert(m0 =~= Seq::<Seq<char>>::empty());
                                    assert(count_before(c0, k) == 0);
                                    assert(samples_before(c0, k) == Seq::<Seq<char>>::empty());
                                    assert(fill3(Seq::<Seq<char>>::empty(), Seq::<Seq<char>>::empty())
                                        == Seq::<Seq<char>>::empty());
                                    assert(Seq::<Seq<char>>::empty().push(line) =~= seq![line]);
                                },
                            }
                        } else {
                            assert(members(n0, c0, lv.take(i + 1), thr, dp, mx, k) == m0);
                            match spec_search(pn, pc, toks, thr, dp) {
                                Some(cid) => {
                                    assert(nc[k] == pc[k]);
                                },
                                None => {
                                    assert(k < pc.len());
                                    assert(nc[k] == pc[k]);
                                },
                            }
                        }
                    }
                    assert forall|k: int| k >= nc.len() implies (#[trigger] members(
                        n0,
                        c0,
                        lv.take(i + 1),
                        thr,
                        dp,
                        mx,
                        k,
                    )).len() == 0 by {
                        assert(members(n0, c0, lv.take(i + 1), thr, dp, mx, k) == members(
                            n0,
                            c0,
                            lv.take(i as int),
                            thr,
                            dp,
                            mx,
                            k,
                        ));
                    }
                }
            } else {
                proof {
                    let thr = old(self).threshold();
                    let dp = old(self).depth_v();
                    let mx = old(self).max_children_v();
                    assert forall|k: int| #![trigger members(n0, c0, lv.take(i + 1), thr, dp, mx, k)]
                        members(n0, c0, lv.take(i + 1), thr, dp, mx, k) == members(
                            n0,
                            c0,
                            lv.take(i as int),
                            thr,
                            dp,
                            mx,
                            k,
                        ) by {}
                }
            }
            i = i + 1;
        }
        proof {
            assert(lv.take(lines.len() as int) =~= lv);
            if c0.len() == 0 {
                let thr = old(self).threshold();
                let dp = old(self).depth_v();
                let mx = old(self).max_children_v();
                assert forall|k: int| 0 <= k < self.clusters_v().len() implies {
                    let m = members(n0, c0, lv, thr, dp, mx, k);
                    &&& (#[trigger] self.clusters_v()[k]).1 == m.len()
                    &&& self.clusters_v()[k].2 == m.take(
                        if m.len() < 3 {
                            m.len() as int
                        } else {
                            3
                        },
                    )
                } by {
                    lemma_fill3_first(members(n0, c0, lv, thr, dp, mx, k));
                    assert(samples_before(c0, k) == Seq::<Seq<char>>::empty());
                }
            }
        }
        let ghost cv = self.clusters_v();
        let mut keys: Vec<usize> = Vec::new();
        let mut k: usize = 0;
        while k < self.clusters.len()
            invariant
                cv == self.clusters_v(),
                k <= self.clusters.len(),
                keys@ == counts_of(cv).take(k as int),
            decreases self.clusters.len() - k,
        {
            keys.push(self.clusters[k].count);
            k = k + 1;
            assert(keys@ =~= counts_of(cv).take(k as int));
        }
        assert(keys@ =~= counts_of(cv));
        let rank = rank_by_count(&keys);
        let mut templates: Vec<LogTemplate> = Vec::new();
        let mut j: usize = 0;
        while j < rank.len()
            invariant
                cv == self.clusters_v(),
                is_ranking(counts_of(cv), rank@),
                j <= rank.len(),
                templates@.len() == j,
                forall|a: int|
                    0 <= a < j ==> #[trigger] templates@[a]@ == template_of(cv[rank@[a] as int]),
            decreases rank.len() - j,
        {
            let c = &self.clusters[rank[j]];
            assert(cv[rank@[j as int] as int] == c.v());
            let t = LogTemplate {
                template: string_of(&join_tokens(&c.tokens)),
                count: c.count,
                samples: copy_strings(&c.samples),
            };
            templates.push(t);
            j = j + 1;
        }
        let n = templates.len();
        DrainResult { total_lines: total, template_count: n, templates }
    }
}

// ---------------------------------------------------------------------------
// Character-level templating (independent of the tree)
// ---------------------------------------------------------------------------

/// Number, path, or plain character at position `p`.
pub open spec fn ctm_tail(s: Seq<char>, p: int) -> (Seq<char>, int) {
    let len = s.len();
    let c = s[p];
    if num_starts(s, p) {
        (lit_num(), num_end(s, p))
    } else if c == '/' || (c == '~' && p + 1 < len && s[p + 1] == '/') {
        let j = path_end(s, p + 1);
        if count_char(s, p + 1, j, '/') >= 1 {
            (lit_path(), j)
        } else {
            (s.subrange(p, j), j)
        }
    } else {
        (seq![c], p + 1)
    }
}

/// What this templater emits at position `i` and where it continues: a UUID, a `0x`
/// hex run of at least six characters, a dotted quad that parses as an IPv4 address,
/// a number, a path, or the character itself.
pub open spec fn ctm_step(s: Seq<char>, i: int) -> (Seq<char>, int) {
    let len = s.len();
    if i + 35 < len && spec_looks_like_uuid(s.subrange(i, i + 36)) {
        (lit_uuid(), i + 36)
    } else if i + 5 < len && s[i] == '0' && (s[i + 1] == 'x' || s[i + 1] == 'X') {
        let j = hex_end(s, i + 2);
        if j - i >= 6 {
            (lit_hex(), j)
        } else {
            (s.subrange(i, j), j)
        }
    } else if is_digit(s[i]) && i + 3 < len {
        let j = dotted_end(s, i);
        if count_char(s, i, j, '.') == 3 && spec_parses_as_ipv4(s.subrange(i, j)) {
            (lit_ip(), j)
        } else {
            ctm_tail(s, i)
        }
    } else {
        ctm_tail(s, i)
    }
}

pub open spec fn ctm_from(s: Seq<char>, i: int) -> Seq<char>
    decreases s.len() - i,
{
    if i < 0 || i >= s.len() {
        Seq::empty()
    } else {
        let st = ctm_step(s, i);
        if st.1 <= i || st.1 > s.len() {
            st.0
        } else {
            st.0 + ctm_from(s, st.1)
        }
    }
}

/// Emits the number/path/plain-character rule at `p`; returns where to continue.
fn ctm_tail_exec(s: &Vec<char>, p: usize, out: &mut Vec<char>) -> (next: usize)
    requires
        p < s.len(),
    ensures
        final(out)@ == old(out)@ + ctm_tail(s@, p as int).0,
        next as int == ctm_tail(s@, p as int).1,
        p < next <= s.len(),
{
    proof {
        reveal_strlit("{NUM}");
        reveal_strlit("{PATH}");
    }
    let len = s.len();
    let c = s[p];
    if digit(c) || (c == '-' && p + 1 < len && digit(s[p + 1])) {
        let j0 = if c == '-' {
            p + 1
        } else {
            p
        };
        let j1 = digits_end_at(s, j0);
        let j2 = if j1 < len && s[j1] == '.' && j1 + 1 < len && digit(s[j1 + 1]) {
            digits_end_at(s, j1 + 1)
        } else {
            j1
        };
        push_lit(out, "{NUM}");
        j2
    } else if c == '/' || (c == '~' && p + 1 < len && s[p + 1] == '/') {
        let (j, segments) = path_end_at(s, p + 1);
        if segments >= 1 {
            push_lit(out, "{PATH}");
        } else {
            push_range(out, s, p, j);
        }
        j
    } else {
        let ghost before = out@;
        out.push(c);
        assert(out@ =~= before + seq![c]);
        p + 1
    }
}

/// Template a log message by replacing variable parts with placeholders (see
/// [`ctm_step`]); a character-level pass, independent of the Drain tree.
pub fn template_message(msg: &str) -> (r: String)
    ensures
        r@ == ctm_from(msg@, 0),
{
    let s = chars_of(msg);
    let len = s.len();
    let mut out: Vec<char> = Vec::new();
    let mut i: usize = 0;
    while i < len
        invariant
            len == s.len(),
            i <= len,
            out@ + ctm_from(s@, i as int) == ctm_from(s@, 0),
        decreases len - i,
    {
        let ghost st = ctm_step(s@, i as int);
        let ghost before = out@;
        proof {
            reveal_strlit("{UUID}");
            reveal_strlit("{HEX}");
            reveal_strlit("{IP}");
        }
        let mut is_uuid = false;
        if len - i > 35 {
            let w = slice(&s, i, i + 36);
            is_uuid = uuid_chars(&w);
        }
        assert(is_uuid == (i + 35 < len && spec_looks_like_uuid(s@.subrange(i as int, i + 36))));
        let next: usize;
        if is_uuid {
            push_lit(&mut out, "{UUID}");
            next = i + 36;
            assert(out@ == before + st.0);
        } else if len - i > 5 && s[i] == '0' && (s[i + 1] == 'x' || s[i + 1] == 'X') {
            let j = hex_end_at(&s, i + 2);
            if j - i >= 6 {
                push_lit(&mut out, "{HEX}");
            } else {
                push_range(&mut out, &s, i, j);
            }
            next = j;
            assert(out@ == before + st.0);
        } else if digit(s[i]) && len - i > 3 {
            let (j, dots) = dotted_end_at(&s, i);
            let mut is_ip = false;
            if dots == 3 {
                let w = string_of(&slice(&s, i, j));
                is_ip = parses_as_ipv4(w.as_str());
            }
            assert(is_ip == (count_char(s@, i as int, j as int, '.') == 3 && spec_parses_as_ipv4(
                s@.subrange(i as int, j as int),
            )));
            if is_ip {
                push_lit(&mut out, "{IP}");
                next = j;
                assert(out@ == before + st.0);
            } else {
                next = ctm_tail_exec(&s, i, &mut out);
            }
        } else {
            next = ctm_tail_exec(&s, i, &mut out);
        }
        proof {
            assert(out@ == before + st.0);
            assert(next as int == st.1);
            assert(st.1 > i);
        }
        i = next;
    }
    string_of(&out)
}

// ---------------------------------------------------------------------------
// The tokenizer's law
// ---------------------------------------------------------------------------

/// The tokens joined together.
pub open spec fn joined(ts: Seq<Seq<char>>) -> Seq<char>
    decreases ts.len(),
{
    if ts.len() == 0 {
        Seq::empty()
    } else {
        joined(ts.drop_last()) + ts.last()
    }
}

/// A line without its blanks (spaces and tabs).
pub open spec fn without_blanks(s: Seq<char>) -> Seq<char>
    decreases s.len(),
{
    if s.len() == 0 {
        Seq::empty()
    } else if s.last() == ' ' || s.last() == '\t' {
        without_blanks(s.drop_last())
    } else {
        without_blanks(s.drop_last()).push(s.last())
    }
}

pub open spec fn blank_free(t: Seq<char>) -> bool {
    forall|k: int| 0 <= k < t.len() ==> (#[trigger] t[k]) != ' ' && t[k] != '\t'
}

/// Every token is non-empty and holds no blank.
pub open spec fn good_tokens(ts: Seq<Seq<char>>) -> bool {
    forall|i: int| 0 <= i < ts.len() ==> (#[trigger] ts[i]).len() > 0 && blank_free(ts[i])
}

proof fn lemma_joined_add(a: Seq<Seq<char>>, b: Seq<Seq<char>>)
    ensures
        joined(a + b) == joined(a) + joined(b),
    decreases b.len(),
{
    if b.len() == 0 {
        assert(a + b =~= a);
    } else {
        lemma_joined_add(a, b.drop_last());
        assert((a + b).drop_last() =~= a + b.drop_last());
    }
}

proof fn lemma_good_push(ts: Seq<Seq<char>>, t: Seq<char>)
    requires
        good_tokens(ts),
        t.len() > 0,
        blank_free(t),
    ensures
        good_tokens(ts.push(t)),
        joined(ts.push(t)) == joined(ts) + t,
{
    assert(ts.push(t).drop_last() =~= ts);
    assert forall|i: int| 0 <= i < ts.push(t).len() implies (#[trigger] ts.push(t)[i]).len() > 0
        && blank_free(ts.push(t)[i]) by {
        if i < ts.len() {
            assert(ts.push(t)[i] == ts[i]);
        }
    }
}

proof fn lemma_good_add(a: Seq<Seq<char>>, b: Seq<Seq<char>>)
    requires
        good_tokens(a),
        good_tokens(b),
    ensures
        good_tokens(a + b),
{
    assert forall|i: int| 0 <= i < (a + b).len() implies (#[trigger] (a + b)[i]).len() > 0
        && blank_free((a + b)[i]) by {
        if i < a.len() {
            assert((a + b)[i] == a[i]);
        } else {
            assert((a + b)[i] == b[i - a.len()]);
        }
    }
}

/// Splitting around separators keeps every character, in order, in non-empty tokens.
proof fn lemma_sep_step(st: (Seq<Seq<char>>, Seq<char>), c: char, sep: bool, done: Seq<char>)
    requires
        good_tokens(st.0),
        blank_free(st.1),
        joined(st.0) + st.1 == done,
        c != ' ' && c != '\t',
    ensures
        good_tokens(sep_step(st, c, sep).0),
        blank_free(sep_step(st, c, sep).1),
        joined(sep_step(st, c, sep).0) + sep_step(st, c, sep).1 == done.push(c),
{
    let r = sep_step(st, c, sep);
    if sep {
        let res = if st.1.len() > 0 {
            lemma_good_push(st.0, st.1);
            st.0.push(st.1)
        } else {
            assert(st.1 =~= Seq::<char>::empty());
            assert(joined(st.0) + st.1 =~= joined(st.0));
            st.0
        };
        lemma_good_push(res, seq![c]);
        assert(joined(res) == done);
        assert(joined(res) + seq![c] =~= done.push(c));
        assert(r.1 =~= Seq::<char>::empty());
        assert(joined(r.0) + r.1 =~= joined(r.0));
    } else {
        assert(joined(st.0) + st.1.push(c) =~= (joined(st.0) + st.1).push(c));
    }
}

proof fn lemma_special_scan(s: Seq<char>, n: nat)
    requires
        n <= s.len(),
        blank_free(s),
    ensures
        good_tokens(special_scan(s, n).0),
        blank_free(special_scan(s, n).1),
        joined(special_scan(s, n).0) + special_scan(s, n).1 == s.take(n as int),
    decreases n,
{
    if n == 0 {
        assert(joined(Seq::<Seq<char>>::empty()) + Seq::<char>::empty() =~= s.take(0));
    } else {
        lemma_special_scan(s, (n - 1) as nat);
        assert(s.take(n as int) =~= s.take(n - 1).push(s[n - 1]));
        lemma_sep_step(special_scan(s, (n - 1) as nat), s[n - 1], is_special(s[n - 1]), s.take(n - 1));
    }
}

proof fn lemma_punct_scan(s: Seq<char>, n: nat)
    requires
        n <= s.len(),
        blank_free(s),
    ensures
        good_tokens(punct_scan(s, n).0),
        blank_free(punct_scan(s, n).1),
        joined(punct_scan(s, n).0) + punct_scan(s, n).1 == s.take(n as int),
    decreases n,
{
    if n == 0 {
        assert(joined(Seq::<Seq<char>>::empty()) + Seq::<char>::empty() =~= s.take(0));
    } else {
        lemma_punct_scan(s, (n - 1) as nat);
        assert(s.take(n as int) =~= s.take(n - 1).push(s[n - 1]));
        lemma_sep_step(punct_scan(s, (n - 1) as nat), s[n - 1], is_punct(s[n - 1]), s.take(n - 1));
    }
}

proof fn lemma_close_run(st: (Seq<Seq<char>>, Seq<char>))
    requires
        good_tokens(st.0),
        blank_free(st.1),
    ensures
        good_tokens(close_run(st)),
        joined(close_run(st)) == joined(st.0) + st.1,
{
    if st.1.len() > 0 {
        lemma_good_push(st.0, st.1);
    } else {
        assert(joined(st.0) + st.1 =~= joined(st.0));
    }
}

proof fn lemma_split_special(t: Seq<char>)
    requires
        blank_free(t),
    ensures
        good_tokens(spec_split_special(t)),
        joined(spec_split_special(t)) == t,
{
    lemma_special_scan(t, t.len());
    assert(t.take(t.len() as int) =~= t);
    lemma_close_run(special_scan(t, t.len()));
}

proof fn lemma_split_punct(t: Seq<char>)
    requires
        t.len() > 0,
        blank_free(t),
    ensures
        good_tokens(spec_split_punct(t)),
        joined(spec_split_punct(t)) == t,
{
    lemma_punct_scan(t, t.len());
    assert(t.take(t.len() as int) =~= t);
    lemma_close_run(punct_scan(t, t.len()));
    if close_run(punct_scan(t, t.len())).len() == 0 {
        lemma_good_push(Seq::empty(), t);
        assert(seq![t] =~= Seq::<Seq<char>>::empty().push(t));
        assert(joined(Seq::<Seq<char>>::empty()) + t =~= t);
    }
}

proof fn lemma_flat_punct(ts: Seq<Seq<char>>)
    requires
        good_tokens(ts),
    ensures
        good_tokens(flat_punct(ts)),
        joined(flat_punct(ts)) == joined(ts),
    decreases ts.len(),
{
    if ts.len() > 0 {
        let init = ts.drop_last();
        assert(good_tokens(init)) by {
            assert forall|i: int| 0 <= i < init.len() implies (#[trigger] init[i]).len() > 0
                && blank_free(init[i]) by {
                assert(init[i] == ts[i]);
            }
        }
        lemma_flat_punct(init);
        assert(ts[ts.len() - 1] == ts.last());
        lemma_split_punct(ts.last());
        lemma_good_add(flat_punct(init), spec_split_punct(ts.last()));
        lemma_joined_add(flat_punct(init), spec_split_punct(ts.last()));
    }
}

proof fn lemma_tok_scan(s: Seq<char>, n: nat)
    requires
        n <= s.len(),
        forall|k: int| 0 <= k < s.len() ==> s[k] != '"',
    ensures
        good_tokens(tok_scan(s, n).0),
        blank_free(tok_scan(s, n).1),
        !tok_scan(s, n).2,
        joined(tok_scan(s, n).0) + tok_scan(s, n).1 == without_blanks(s.take(n as int)),
    decreases n,
{
    if n == 0 {
        assert(s.take(0) =~= Seq::<char>::empty());
        assert(joined(Seq::<Seq<char>>::empty()) + Seq::<char>::empty() =~= Seq::<char>::empty());
    } else {
        lemma_tok_scan(s, (n - 1) as nat);
        let st = tok_scan(s, (n - 1) as nat);
        let c = s[n - 1];
        assert(s.take(n as int).drop_last() =~= s.take(n - 1));
        assert(s.take(n as int).last() == c);
        if c == ' ' || c == '\t' {
            if st.1.len() > 0 {
                lemma_good_push(st.0, st.1);
                assert(joined(st.0.push(st.1)) + Seq::<char>::empty() =~= joined(st.0.push(st.1)));
            }
        } else {
            assert(joined(st.0) + st.1.push(c) =~= (joined(st.0) + st.1).push(c));
        }
    }
}

/// Tokenizing: every line gives at least one token; for a line without double quotes
/// and with a character other than a blank, the tokens are non-empty, hold no blank,
/// and joined together give the line without its blanks.
pub proof fn lemma_tokenize(s: Seq<char>)
    ensures
        spec_tokenize(s).len() > 0,
        (forall|k: int| 0 <= k < s.len() ==> s[k] != '"') && without_blanks(s).len() > 0 ==> {
            &&& good_tokens(spec_tokenize(s))
            &&& joined(spec_tokenize(s)) == without_blanks(s)
        },
{
    if (forall|k: int| 0 <= k < s.len() ==> s[k] != '"') && without_blanks(s).len() > 0 {
        lemma_tok_scan(s, s.len());
        assert(s.take(s.len() as int) =~= s);
        let st = tok_scan(s, s.len());
        let raw = raw_tokens(s);
        if st.1.len() > 0 {
            lemma_split_special(st.1);
            lemma_good_add(st.0, spec_split_special(st.1));
            lemma_joined_add(st.0, spec_split_special(st.1));
        } else {
            assert(joined(st.0) + st.1 =~= joined(st.0));
        }
        assert(good_tokens(raw) && joined(raw) == without_blanks(s));
        lemma_flat_punct(raw);
        if flat_punct(raw).len() == 0 {
            assert(joined(flat_punct(raw)) == Seq::<char>::empty());
        }
    }
}

// ---------------------------------------------------------------------------
// Masking laws
// ---------------------------------------------------------------------------

/// Masking: a token that looks like a number, an IP address, a UUID, a hex string or
/// a path becomes the wildcard `*`; any other token stays as it is; the number of
/// tokens does not change.
pub proof fn lemma_masked_tokens(ts: Seq<Seq<char>>)
    ensures
        masked(ts).len() == ts.len(),
        forall|i: int|
            0 <= i < ts.len() && (spec_looks_like_number(ts[i]) || spec_parses_as_ip(ts[i])
                || spec_looks_like_uuid(ts[i]) || spec_looks_like_hex(ts[i])
                || spec_looks_like_path(ts[i])) ==> #[trigger] masked(ts)[i] == seq!['*'],
        forall|i: int|
            0 <= i < ts.len() && !(spec_looks_like_number(ts[i]) || spec_parses_as_ip(ts[i])
                || spec_looks_like_uuid(ts[i]) || spec_looks_like_hex(ts[i])
                || spec_looks_like_path(ts[i])) ==> #[trigger] masked(ts)[i] == ts[i],
{
}

/// Two lines whose tokens agree except where both hold a variable value (a number, an
/// IP address, a UUID, a hex string or a path) join the same cluster.
pub proof fn lemma_variable_tokens_same_cluster(
    nodes: Seq<NodeV>,
    clusters: Seq<ClusterV>,
    l1: Seq<char>,
    l2: Seq<char>,
    thr: (int, int),
    depth: nat,
)
    requires
        spec_tokenize(l1).len() == spec_tokenize(l2).len(),
        forall|i: int|
            0 <= i < spec_tokenize(l1).len() ==> #[trigger] spec_tokenize(l1)[i] == spec_tokenize(
                l2,
            )[i] || ((spec_looks_like_number(spec_tokenize(l1)[i]) || spec_parses_as_ip(
                spec_tokenize(l1)[i],
            ) || spec_looks_like_uuid(spec_tokenize(l1)[i]) || spec_looks_like_hex(
                spec_tokenize(l1)[i],
            ) || spec_looks_like_path(spec_tokenize(l1)[i])) && (spec_looks_like_number(
                spec_tokenize(l2)[i],
            ) || spec_parses_as_ip(spec_tokenize(l2)[i]) || spec_looks_like_uuid(
                spec_tokenize(l2)[i],
            ) || spec_looks_like_hex(spec_tokenize(l2)[i]) || spec_looks_like_path(
                spec_tokenize(l2)[i],
            ))),
    ensures
        assigned(nodes, clusters, l1, thr, depth) == assigned(nodes, clusters, l2, thr, depth),
{
    let t1 = spec_tokenize(l1);
    let t2 = spec_tokenize(l2);
    lemma_masked_tokens(t1);
    lemma_masked_tokens(t2);
    assert forall|i: int| 0 <= i < t1.len() implies masked(t1)[i] == masked(t2)[i] by {
        assert(t1[i] == spec_tokenize(l1)[i]);
    }
    assert(masked(t1) =~= masked(t2));
}

} // verus!
