//! Character-level text helpers shared by the parsers and analyzers.
use vstd::prelude::*;

verus! {

/// Views of a sequence of character vectors.
pub open spec fn vv(v: Seq<Vec<char>>) -> Seq<Seq<char>> {
    v.map_values(|x: Vec<char>| x@)
}

/// Views of a sequence of strings.
pub open spec fn sv(v: Seq<String>) -> Seq<Seq<char>> {
    v.map_values(|x: String| x@)
}

/// ASCII decimal digit.
pub open spec fn is_digit(c: char) -> bool {
    '0' <= c && c <= '9'
}

/// ASCII hexadecimal digit.
pub open spec fn is_hex(c: char) -> bool {
    is_digit(c) || ('a' <= c && c <= 'f') || ('A' <= c && c <= 'F')
}

/// Unicode `White_Space` property, as `char::is_whitespace` documents it.
pub open spec fn is_ws(c: char) -> bool {
    ('\u{9}' <= c && c <= '\u{d}') || c == ' ' || c == '\u{85}' || c == '\u{a0}'
        || c == '\u{1680}' || ('\u{2000}' <= c && c <= '\u{200a}') || c == '\u{2028}'
        || c == '\u{2029}' || c == '\u{202f}' || c == '\u{205f}' || c == '\u{3000}'
}

pub fn digit(c: char) -> (r: bool)
    ensures
        r == is_digit(c),
{
    '0' <= c && c <= '9'
}

pub fn hexdigit(c: char) -> (r: bool)
    ensures
        r == is_hex(c),
{
    ('0' <= c && c <= '9') || ('a' <= c && c <= 'f') || ('A' <= c && c <= 'F')
}

pub fn whitespace(c: char) -> (r: bool)
    ensures
        r == is_ws(c),
{
    ('\u{9}' <= c && c <= '\u{d}') || c == ' ' || c == '\u{85}' || c == '\u{a0}'
        || c == '\u{1680}' || ('\u{2000}' <= c && c <= '\u{200a}') || c == '\u{2028}'
        || c == '\u{2029}' || c == '\u{202f}' || c == '\u{205f}' || c == '\u{3000}'
}

/// The characters of a string slice, in order.
pub fn chars_of(s: &str) -> (res: Vec<char>)
    ensures
        res@ == s@,
{
    let mut res: Vec<char> = Vec::new();
    for c in it: s.chars()
        invariant
            res@ == it.seq().take(it.index() as int),
            it.seq() == s@,
    {
        res.push(c);
    }
    res
}

/// Collects characters into a `String` (std `FromIterator<&char> for String`).
#[verifier::external_body]
pub(crate) fn string_of(v: &Vec<char>) -> (s: String)
    ensures
        s@ == v@,
{
    v.iter().collect()
}


/// Appends a string slice to a `String` (std `String::push_str`).
#[verifier::external_body]
pub(crate) fn push_str(s: &mut String, t: &str)
    ensures
        final(s)@ == old(s)@ + t@,
{
    s.push_str(t)
}

/// Equality of two character sequences.
pub fn chars_eq(a: &Vec<char>, b: &Vec<char>) -> (r: bool)
    ensures
        r == (a@ == b@),
{
    if a.len() != b.len() {
        return false;
    }
    let mut i: usize = 0;
    while i < a.len()
        invariant
            a.len() == b.len(),
            i <= a.len(),
            forall|j: int| 0 <= j < i ==> a@[j] == b@[j],
        decreases a.len() - i,
    {
        if a[i] != b[i] {
            return false;
        }
        i = i + 1;
    }
    assert(a@ =~= b@);
    true
}

/// Equality of a character sequence with a string slice.
pub fn eq_str(a: &Vec<char>, b: &str) -> (r: bool)
    ensures
        r == (a@ == b@),
{
    let bc = chars_of(b);
    chars_eq(a, &bc)
}

/// Copy of `s[lo..hi]`.
pub fn slice(s: &Vec<char>, lo: usize, hi: usize) -> (r: Vec<char>)
    requires
        lo <= hi <= s.len(),
    ensures
        r@ == s@.subrange(lo as int, hi as int),
{
    let mut r: Vec<char> = Vec::new();
    let mut i = lo;
    while i < hi
        invariant
            lo <= i <= hi <= s.len(),
            r@ == s@.subrange(lo as int, i as int),
        decreases hi - i,
    {
        r.push(s[i]);
        i = i + 1;
        assert(r@ =~= s@.subrange(lo as int, i as int));
    }
    r
}

/// A copy of `s`.
pub fn copy(s: &Vec<char>) -> (r: Vec<char>)
    ensures
        r@ == s@,
{
    let r = slice(s, 0, s.len());
    assert(s@.subrange(0, s.len() as int) =~= s@);
    r
}

/// Appends copies of all of `src` to `dst`.
pub fn append_all(dst: &mut Vec<Vec<char>>, src: &Vec<Vec<char>>)
    ensures
        vv(final(dst)@) == vv(old(dst)@) + vv(src@),
{
    let ghost base = vv(dst@);
    let mut k: usize = 0;
    while k < src.len()
        invariant
            k <= src.len(),
            vv(dst@) == base + vv(src@).take(k as int),
        decreases src.len() - k,
    {
        let c = copy(&src[k]);
        let ghost before = dst@;
        dst.push(c);
        proof {
            assert(dst@ == before.push(c));
            assert(vv(dst@).len() == vv(before).len() + 1);
            assert(vv(dst@)[vv(before).len() as int] == c@);
            assert forall|j: int| 0 <= j < vv(before).len() implies vv(dst@)[j] == vv(before)[j] by {
                assert(dst@[j] == before[j]);
            }
            assert(vv(dst@) =~= vv(before).push(c@));
            assert(vv(src@)[k as int] == src@[k as int]@);
            assert(vv(src@).take(k + 1) =~= vv(src@).take(k as int).push(c@));
            assert(vv(dst@) =~= base + vv(src@).take(k + 1));
        }
        k = k + 1;
    }
    assert(vv(src@).take(src.len() as int) =~= vv(src@));
}

/// `n` occurs in `h` at position `i`.
pub open spec fn occurs_at(h: Seq<char>, n: Seq<char>, i: int) -> bool {
    0 <= i && i + n.len() <= h.len() && h.subrange(i, i + n.len()) == n
}

pub open spec fn contains_seq(h: Seq<char>, n: Seq<char>) -> bool {
    exists|i: int| occurs_at(h, n, i)
}

pub open spec fn starts_with(h: Seq<char>, n: Seq<char>) -> bool {
    n.len() <= h.len() && h.subrange(0, n.len() as int) == n
}

pub open spec fn ends_with(h: Seq<char>, n: Seq<char>) -> bool {
    n.len() <= h.len() && h.subrange(h.len() - n.len(), h.len() as int) == n
}

/// Does `n` occur at position `i` of `h`?
pub fn matches_at(h: &Vec<char>, n: &Vec<char>, i: usize) -> (r: bool)
    ensures
        r == occurs_at(h@, n@, i as int),
{
    if i > h.len() || n.len() > h.len() - i {
        return false;
    }
    let mut k: usize = 0;
    while k < n.len()
        invariant
            i + n.len() <= h.len(),
            k <= n.len(),
            forall|j: int| 0 <= j < k ==> h@[i + j] == n@[j],
        decreases n.len() - k,
    {
        if h[i + k] != n[k] {
            assert(h@.subrange(i as int, i + n.len())[k as int] != n@[k as int]);
            return false;
        }
        k = k + 1;
    }
    assert(h@.subrange(i as int, i + n.len()) =~= n@);
    true
}

/// First occurrence of `n` in `h` (like `str::find`, in characters).
pub fn find(h: &Vec<char>, n: &Vec<char>) -> (r: Option<usize>)
    ensures
        match r {
            Some(i) => occurs_at(h@, n@, i as int) && forall|j: int|
                0 <= j < i ==> !occurs_at(h@, n@, j),
            None => forall|j: int| !occurs_at(h@, n@, j),
        },
{
    if n.len() > h.len() {
        return None;
    }
    let last = h.len() - n.len();
    let mut i: usize = 0;
    loop
        invariant
            n.len() <= h.len(),
            last == h.len() - n.len(),
            i <= last,
            forall|j: int| 0 <= j < i ==> !occurs_at(h@, n@, j),
        decreases last - i,
    {
        if matches_at(h, n, i) {
            return Some(i);
        }
        if i == last {
            return None;
        }
        i = i + 1;
    }
}

/// Last occurrence of `n` in `h` (like `str::rfind`, in characters).
pub fn rfind(h: &Vec<char>, n: &Vec<char>) -> (r: Option<usize>)
    ensures
        match r {
            Some(i) => occurs_at(h@, n@, i as int) && forall|j: int|
                i < j ==> !occurs_at(h@, n@, j),
            None => forall|j: int| !occurs_at(h@, n@, j),
        },
{
    if n.len() > h.len() {
        return None;
    }
    let mut i: usize = h.len() - n.len();
    loop
        invariant
            n.len() <= h.len(),
            i <= h.len() - n.len(),
            forall|j: int| i < j ==> !occurs_at(h@, n@, j),
        decreases i,
    {
        if matches_at(h, n, i) {
            return Some(i);
        }
        if i == 0 {
            return None;
        }
        i = i - 1;
    }
}

pub fn contains(h: &Vec<char>, n: &Vec<char>) -> (r: bool)
    ensures
        r == contains_seq(h@, n@),
{
    match find(h, n) {
        Some(i) => true,
        None => false,
    }
}

pub fn has_prefix(h: &Vec<char>, n: &Vec<char>) -> (r: bool)
    ensures
        r == starts_with(h@, n@),
{
    if matches_at(h, n, 0) {
        true
    } else {
        false
    }
}

pub fn has_suffix(h: &Vec<char>, n: &Vec<char>) -> (r: bool)
    ensures
        r == ends_with(h@, n@),
{
    if n.len() > h.len() {
        return false;
    }
    matches_at(h, n, h.len() - n.len())
}

/// `s` with leading whitespace removed (`str::trim_start`).
pub open spec fn trim_start(s: Seq<char>) -> Seq<char>
    decreases s.len(),
{
    if s.len() > 0 && is_ws(s[0]) {
        trim_start(s.drop_first())
    } else {
        s
    }
}

/// `s` with trailing whitespace removed (`str::trim_end`).
pub open spec fn trim_end(s: Seq<char>) -> Seq<char>
    decreases s.len(),
{
    if s.len() > 0 && is_ws(s.last()) {
        trim_end(s.drop_last())
    } else {
        s
    }
}

/// `s` with whitespace removed at both ends (`str::trim`).
pub open spec fn trim(s: Seq<char>) -> Seq<char> {
    trim_end(trim_start(s))
}

proof fn lemma_trim_start_skip(s: Seq<char>, i: int)
    requires
        0 <= i <= s.len(),
        forall|j: int| 0 <= j < i ==> is_ws(s[j]),
    ensures
        trim_start(s) == trim_start(s.subrange(i, s.len() as int)),
    decreases i,
{
    if i > 0 {
        assert(s.drop_first().subrange(i - 1, s.drop_first().len() as int) =~= s.subrange(
            i,
            s.len() as int,
        ));
        lemma_trim_start_skip(s.drop_first(), i - 1);
    } else {
        assert(s.subrange(0, s.len() as int) =~= s);
    }
}

proof fn lemma_trim_end_skip(s: Seq<char>, k: int)
    requires
        0 <= k <= s.len(),
        forall|j: int| k <= j < s.len() ==> is_ws(s[j]),
    ensures
        trim_end(s) == trim_end(s.subrange(0, k)),
    decreases s.len() - k,
{
    if k < s.len() {
        assert(s.drop_last().subrange(0, k) =~= s.subrange(0, k));
        lemma_trim_end_skip(s.drop_last(), k);
    } else {
        assert(s.subrange(0, k) =~= s);
    }
}

/// Removes leading whitespace.
pub fn trim_start_chars(s: &Vec<char>) -> (r: Vec<char>)
    ensures
        r@ == trim_start(s@),
{
    let mut i: usize = 0;
    while i < s.len() && whitespace(s[i])
        invariant
            i <= s.len(),
            forall|j: int| 0 <= j < i ==> is_ws(s@[j]),
        decreases s.len() - i,
    {
        i = i + 1;
    }
    proof {
        lemma_trim_start_skip(s@, i as int);
    }
    slice(s, i, s.len())
}

/// Removes trailing whitespace.
pub fn trim_end_chars(s: &Vec<char>) -> (r: Vec<char>)
    ensures
        r@ == trim_end(s@),
{
    let mut k: usize = s.len();
    while k > 0 && whitespace(s[k - 1])
        invariant
            k <= s.len(),
            forall|j: int| k <= j < s.len() ==> is_ws(s@[j]),
        decreases k,
    {
        k = k - 1;
    }
    proof {
        lemma_trim_end_skip(s@, k as int);
        let t = s@.subrange(0, k as int);
        assert(!(t.len() > 0 && is_ws(t.last())));
    }
    slice(s, 0, k)
}

/// Removes whitespace at both ends.
pub fn trim_chars(s: &Vec<char>) -> (r: Vec<char>)
    ensures
        r@ == trim(s@),
{
    let t = trim_start_chars(s);
    trim_end_chars(&t)
}

/// Splitting text into the pieces between `\n` characters; a final piece without a
/// `\n` counts only when it is not empty (what `BufRead::read_line` yields).
pub open spec fn line_scan(s: Seq<char>, n: nat) -> (Seq<Seq<char>>, Seq<char>)
    decreases n,
{
    if n == 0 || n > s.len() {
        (Seq::empty(), Seq::empty())
    } else {
        let st = line_scan(s, (n - 1) as nat);
        if s[n - 1] == '\n' {
            (st.0.push(st.1), Seq::empty())
        } else {
            (st.0, st.1.push(s[n - 1]))
        }
    }
}

/// `s` without trailing carriage returns.
pub open spec fn strip_cr(s: Seq<char>) -> Seq<char>
    decreases s.len(),
{
    if s.len() > 0 && s.last() == '\r' {
        strip_cr(s.drop_last())
    } else {
        s
    }
}

/// The lines of a text, each without its line terminator (`\n`, then any `\r`s).
pub open spec fn spec_lines(s: Seq<char>) -> Seq<Seq<char>> {
    let st = line_scan(s, s.len());
    let raw = if st.1.len() > 0 {
        st.0.push(st.1)
    } else {
        st.0
    };
    raw.map_values(|l: Seq<char>| strip_cr(l))
}

fn strip_cr_chars(s: &Vec<char>) -> (r: Vec<char>)
    ensures
        r@ == strip_cr(s@),
{
    let mut k: usize = s.len();
    assert(s@.subrange(0, s.len() as int) =~= s@);
    while k > 0 && s[k - 1] == '\r'
        invariant
            k <= s.len(),
            strip_cr(s@) == strip_cr(s@.subrange(0, k as int)),
        decreases k,
    {
        proof {
            assert(s@.subrange(0, k as int).drop_last() =~= s@.subrange(0, k - 1));
        }
        k = k - 1;
    }
    proof {
        assert(s@.subrange(0, s.len() as int) =~= s@);
    }
    slice(s, 0, k)
}

/// The lines of `content` (see [`spec_lines`]).
pub fn split_lines(content: &str) -> (r: Vec<Vec<char>>)
    ensures
        vv(r@) == spec_lines(content@),
{
    let s = chars_of(content);
    let mut lines: Vec<Vec<char>> = Vec::new();
    let mut cur: Vec<char> = Vec::new();
    let mut i: usize = 0;
    while i < s.len()
        invariant
            i <= s.len(),
            s@ == content@,
            vv(lines@) == line_scan(s@, i as nat).0.map_values(|l: Seq<char>| strip_cr(l)),
            cur@ == line_scan(s@, i as nat).1,
        decreases s.len() - i,
    {
        let c = s[i];
        if c == '\n' {
            let l = strip_cr_chars(&cur);
            let ghost before = lines@;
            lines.push(l);
            proof {
                assert(vv(lines@) =~= vv(before).push(l@));
                assert(line_scan(s@, (i + 1) as nat).0 == line_scan(s@, i as nat).0.push(cur@));
                assert(line_scan(s@, (i + 1) as nat).0.map_values(|l: Seq<char>| strip_cr(l))
                    =~= line_scan(s@, i as nat).0.map_values(|l: Seq<char>| strip_cr(l)).push(
                    strip_cr(cur@),
                ));
            }
            cur = Vec::new();
        } else {
            cur.push(c);
        }
        i = i + 1;
    }
    if cur.len() > 0 {
        let l = strip_cr_chars(&cur);
        let ghost before = lines@;
        lines.push(l);
        proof {
            let st = line_scan(s@, s@.len());
            assert(vv(lines@) =~= vv(before).push(l@));
            assert(st.0.push(st.1).map_values(|l: Seq<char>| strip_cr(l)) =~= st.0.map_values(
                |l: Seq<char>| strip_cr(l),
            ).push(strip_cr(cur@)));
        }
    }
    lines
}

/// Appends the characters of a string slice.
pub fn push_lit(v: &mut Vec<char>, lit: &str)
    ensures
        final(v)@ == old(v)@ + lit@,
{
    let cs = chars_of(lit);
    let ghost base = v@;
    let mut i: usize = 0;
    while i < cs.len()
        invariant
            i <= cs.len(),
            v@ == base + cs@.take(i as int),
        decreases cs.len() - i,
    {
        v.push(cs[i]);
        i = i + 1;
        assert(v@ =~= base + cs@.take(i as int));
    }
    assert(cs@.take(cs.len() as int) =~= cs@);
}

/// Appends `s[lo..hi]`.
pub fn push_range(v: &mut Vec<char>, s: &Vec<char>, lo: usize, hi: usize)
    requires
        lo <= hi <= s.len(),
    ensures
        final(v)@ == old(v)@ + s@.subrange(lo as int, hi as int),
{
    let ghost base = v@;
    let mut i = lo;
    while i < hi
        invariant
            lo <= i <= hi <= s.len(),
            v@ == base + s@.subrange(lo as int, i as int),
        decreases hi - i,
    {
        v.push(s[i]);
        i = i + 1;
        assert(v@ =~= base + s@.subrange(lo as int, i as int));
    }
}

/// Named result of std's `str::to_uppercase` (Unicode case mapping).
pub uninterp spec fn spec_to_uppercase(s: Seq<char>) -> Seq<char>;

/// Named result of std's `str::to_lowercase` (Unicode case mapping).
pub uninterp spec fn spec_to_lowercase(s: Seq<char>) -> Seq<char>;

/// Named result of std's `char::is_alphanumeric` (Unicode Alphabetic or Numeric).
pub uninterp spec fn spec_is_alphanumeric(c: char) -> bool;

/// The value of a run of decimal digits.
pub open spec fn decimal_value(p: Seq<char>) -> nat
    decreases p.len(),
{
    if p.len() == 0 {
        0
    } else {
        decimal_value(p.drop_last()) * 10 + (p.last() as nat - '0' as nat) as nat
    }
}

/// One octet of dot-decimal notation: one to three decimal digits, no leading zero
/// (octal and hexadecimal forms are refused), at most 255.
pub open spec fn ipv4_octet(p: Seq<char>) -> bool {
    &&& 1 <= p.len() <= 3
    &&& forall|k: int| 0 <= k < p.len() ==> is_digit(#[trigger] p[k])
    &&& (p.len() == 1 || p[0] != '0')
    &&& decimal_value(p) <= 255
}

/// What std's `Ipv4Addr` parser accepts: four octets in dot-decimal notation.
pub open spec fn spec_parses_as_ipv4(s: Seq<char>) -> bool {
    let parts = split_char(s, '.');
    &&& parts.len() == 4
    &&& forall|k: int| 0 <= k < 4 ==> ipv4_octet(#[trigger] parts[k])
}

/// Every character is ASCII.
pub open spec fn is_ascii_text(s: Seq<char>) -> bool {
    forall|k: int| 0 <= k < s.len() ==> (#[trigger] s[k] as int) < 128
}

/// `a`..`z` to `A`..`Z`, any other character unchanged.
pub open spec fn ascii_upper_char(c: char) -> char {
    if 'a' <= c <= 'z' {
        ((c as int) - 32) as char
    } else {
        c
    }
}

/// `A`..`Z` to `a`..`z`, any other character unchanged.
pub open spec fn ascii_lower_char(c: char) -> char {
    if 'A' <= c <= 'Z' {
        ((c as int) + 32) as char
    } else {
        c
    }
}

pub open spec fn ascii_upper(s: Seq<char>) -> Seq<char> {
    s.map_values(|c: char| ascii_upper_char(c))
}

pub open spec fn ascii_lower(s: Seq<char>) -> Seq<char> {
    s.map_values(|c: char| ascii_lower_char(c))
}

/// Calls std's `str::to_uppercase`; the result is named, not described, but for an
/// ASCII text, whose case mapping std's documentation gives, it maps `a`..`z` to
/// `A`..`Z` and keeps every other character.
#[verifier::external_body]
pub(crate) fn to_uppercase(s: &str) -> (r: String)
    ensures
        r@ == spec_to_uppercase(s@),
        is_ascii_text(s@) ==> r@ == ascii_upper(s@),
{
    s.to_uppercase()
}

/// Calls std's `str::to_lowercase`; the result is named, not described, but for an
/// ASCII text it maps `A`..`Z` to `a`..`z` and keeps every other character.
#[verifier::external_body]
pub(crate) fn to_lowercase(s: &str) -> (r: String)
    ensures
        r@ == spec_to_lowercase(s@),
        is_ascii_text(s@) ==> r@ == ascii_lower(s@),
{
    s.to_lowercase()
}

/// Calls std's `char::is_alphanumeric`; the result is named, not described.
#[verifier::external_body]
pub(crate) fn is_alphanumeric(c: char) -> (r: bool)
    ensures
        r == spec_is_alphanumeric(c),
{
    c.is_alphanumeric()
}

/// Calls `str::parse::<core::net::Ipv4Addr>` and reports success: std documents the
/// accepted text as four decimal octets separated by dots, octal (leading zero) and
/// hexadecimal forms being refused.
#[verifier::external_body]
pub(crate) fn parses_as_ipv4(s: &str) -> (r: bool)
    ensures
        r == spec_parses_as_ipv4(s@),
{
    s.parse::<core::net::Ipv4Addr>().is_ok()
}

/// End of the run of digits starting at `j`.
pub open spec fn digits_end(s: Seq<char>, j: int) -> int
    decreases s.len() - j,
{
    if 0 <= j < s.len() && is_digit(s[j]) {
        digits_end(s, j + 1)
    } else {
        j
    }
}

/// End of the run of hex digits starting at `j`.
pub open spec fn hex_end(s: Seq<char>, j: int) -> int
    decreases s.len() - j,
{
    if 0 <= j < s.len() && is_hex(s[j]) {
        hex_end(s, j + 1)
    } else {
        j
    }
}

/// End of the run of digits and dots starting at `j`.
pub open spec fn dotted_end(s: Seq<char>, j: int) -> int
    decreases s.len() - j,
{
    if 0 <= j < s.len() && (is_digit(s[j]) || s[j] == '.') {
        dotted_end(s, j + 1)
    } else {
        j
    }
}

/// A character that may continue a path: alphanumeric or one of `/ . _ -`.
pub open spec fn is_path_char(c: char) -> bool {
    spec_is_alphanumeric(c) || c == '/' || c == '.' || c == '_' || c == '-'
}

/// End of the run of path characters starting at `j`.
pub open spec fn path_end(s: Seq<char>, j: int) -> int
    decreases s.len() - j,
{
    if 0 <= j < s.len() && is_path_char(s[j]) {
        path_end(s, j + 1)
    } else {
        j
    }
}

/// Occurrences of `c` in `s[lo..hi]`.
pub open spec fn count_char(s: Seq<char>, lo: int, hi: int, c: char) -> nat
    decreases hi - lo,
{
    if lo >= hi {
        0
    } else {
        count_char(s, lo, hi - 1, c) + if s[hi - 1] == c {
            1nat
        } else {
            0nat
        }
    }
}

pub fn digits_end_at(s: &Vec<char>, j: usize) -> (r: usize)
    requires
        j <= s.len(),
    ensures
        r as int == digits_end(s@, j as int),
        j <= r <= s.len(),
        j < s.len() && is_digit(s@[j as int]) ==> j < r,
{
    let mut k = j;
    while k < s.len() && digit(s[k])
        invariant
            j <= k <= s.len(),
            digits_end(s@, j as int) == digits_end(s@, k as int),
        decreases s.len() - k,
    {
        k = k + 1;
    }
    k
}

pub fn hex_end_at(s: &Vec<char>, j: usize) -> (r: usize)
    requires
        j <= s.len(),
    ensures
        r as int == hex_end(s@, j as int),
        j <= r <= s.len(),
{
    let mut k = j;
    while k < s.len() && hexdigit(s[k])
        invariant
            j <= k <= s.len(),
            hex_end(s@, j as int) == hex_end(s@, k as int),
        decreases s.len() - k,
    {
        k = k + 1;
    }
    k
}

/// End of the digits-and-dots run from `j`, with the number of dots in it.
pub fn dotted_end_at(s: &Vec<char>, j: usize) -> (r: (usize, usize))
    requires
        j <= s.len(),
    ensures
        r.0 as int == dotted_end(s@, j as int),
        j <= r.0 <= s.len(),
        r.1 == count_char(s@, j as int, r.0 as int, '.'),
{
    let mut k = j;
    let mut dots: usize = 0;
    while k < s.len() && (digit(s[k]) || s[k] == '.')
        invariant
            j <= k <= s.len(),
            dots <= k - j,
            dots == count_char(s@, j as int, k as int, '.'),
            dotted_end(s@, j as int) == dotted_end(s@, k as int),
        decreases s.len() - k,
    {
        if s[k] == '.' {
            dots = dots + 1;
        }
        k = k + 1;
    }
    (k, dots)
}

/// End of the path-character run from `j`, with the number of `/` in it.
pub fn path_end_at(s: &Vec<char>, j: usize) -> (r: (usize, usize))
    requires
        j <= s.len(),
    ensures
        r.0 as int == path_end(s@, j as int),
        j <= r.0 <= s.len(),
        r.1 == count_char(s@, j as int, r.0 as int, '/'),
{
    let mut k = j;
    let mut slashes: usize = 0;
    while k < s.len() && (is_alphanumeric(s[k]) || s[k] == '/' || s[k] == '.' || s[k] == '_'
        || s[k] == '-')
        invariant
            j <= k <= s.len(),
            slashes <= k - j,
            slashes == count_char(s@, j as int, k as int, '/'),
            path_end(s@, j as int) == path_end(s@, k as int),
        decreases s.len() - k,
    {
        if s[k] == '/' {
            slashes = slashes + 1;
        }
        k = k + 1;
    }
    (k, slashes)
}

/// Position of the last occurrence of `n` in `h` (`str::rfind`, in characters).
pub open spec fn rfind_spec(h: Seq<char>, n: Seq<char>) -> Option<int> {
    if exists|i: int| occurs_at(h, n, i) {
        Some(choose|i: int| occurs_at(h, n, i) && forall|j: int| i < j ==> !occurs_at(h, n, j))
    } else {
        None
    }
}

/// Position of the first occurrence of `n` in `h` (`str::find`, in characters).
pub open spec fn find_spec(h: Seq<char>, n: Seq<char>) -> Option<int> {
    if exists|i: int| occurs_at(h, n, i) {
        Some(choose|i: int| occurs_at(h, n, i) && forall|j: int| 0 <= j < i ==> !occurs_at(h, n, j))
    } else {
        None
    }
}

/// Last occurrence of a literal.
pub fn rfind_lit(h: &Vec<char>, lit: &str) -> (r: Option<usize>)
    ensures
        match r {
            Some(i) => rfind_spec(h@, lit@) == Some(i as int) && i + lit@.len() <= h.len(),
            None => rfind_spec(h@, lit@) == None::<int>,
        },
{
    let n = chars_of(lit);
    let r = rfind(h, &n);
    match r {
        Some(i) => {
            proof {
                let c = choose|c: int|
                    occurs_at(h@, n@, c) && forall|j: int| c < j ==> !occurs_at(h@, n@, j);
                assert(occurs_at(h@, n@, i as int));
                if c < i {
                } else if c > i {
                }
            }
            Some(i)
        },
        None => None,
    }
}

/// First occurrence of a literal.
pub fn find_lit(h: &Vec<char>, lit: &str) -> (r: Option<usize>)
    ensures
        match r {
            Some(i) => find_spec(h@, lit@) == Some(i as int) && i + lit@.len() <= h.len(),
            None => find_spec(h@, lit@) == None::<int>,
        },
{
    let n = chars_of(lit);
    let r = find(h, &n);
    match r {
        Some(i) => {
            proof {
                let c = choose|c: int|
                    occurs_at(h@, n@, c) && forall|j: int| 0 <= j < c ==> !occurs_at(h@, n@, j);
                assert(occurs_at(h@, n@, i as int));
                if c < i {
                    assert(occurs_at(h@, n@, c) && 0 <= c);
                } else if c > i {
                }
            }
            Some(i)
        },
        None => None,
    }
}

/// Splitting around every occurrence of `c` (`str::split` with a character): the
/// pieces before, between and after the separators.
pub open spec fn split_scan(s: Seq<char>, c: char, n: nat) -> (Seq<Seq<char>>, Seq<char>)
    decreases n,
{
    if n == 0 || n > s.len() {
        (Seq::empty(), Seq::empty())
    } else {
        let st = split_scan(s, c, (n - 1) as nat);
        if s[n - 1] == c {
            (st.0.push(st.1), Seq::empty())
        } else {
            (st.0, st.1.push(s[n - 1]))
        }
    }
}

pub open spec fn split_char(s: Seq<char>, c: char) -> Seq<Seq<char>> {
    let st = split_scan(s, c, s.len());
    st.0.push(st.1)
}

pub fn split_on(s: &Vec<char>, c: char) -> (r: Vec<Vec<char>>)
    ensures
        vv(r@) == split_char(s@, c),
{
    let mut pieces: Vec<Vec<char>> = Vec::new();
    let mut cur: Vec<char> = Vec::new();
    let mut i: usize = 0;
    while i < s.len()
        invariant
            i <= s.len(),
            (vv(pieces@), cur@) == split_scan(s@, c, i as nat),
        decreases s.len() - i,
    {
        if s[i] == c {
            let ghost before = pieces@;
            let ghost cv = cur@;
            pieces.push(cur);
            cur = Vec::new();
            assert(vv(pieces@) =~= vv(before).push(cv));
        } else {
            cur.push(s[i]);
        }
        i = i + 1;
    }
    let ghost before = pieces@;
    let ghost cv = cur@;
    pieces.push(cur);
    assert(vv(pieces@) =~= vv(before).push(cv));
    pieces
}

/// ASCII case folding of one character, as a code point.
pub open spec fn ascii_fold(c: char) -> u32 {
    if 'A' <= c && c <= 'Z' {
        (c as u32 + 32) as u32
    } else {
        c as u32
    }
}

/// Equal up to ASCII case (`str::eq_ignore_ascii_case`).
pub open spec fn eq_ignore_ascii_case(a: Seq<char>, b: Seq<char>) -> bool {
    a.len() == b.len() && forall|i: int| 0 <= i < a.len() ==> ascii_fold(a[i]) == ascii_fold(b[i])
}

fn fold_char(c: char) -> (r: u32)
    ensures
        r == ascii_fold(c),
{
    if 'A' <= c && c <= 'Z' {
        c as u32 + 32
    } else {
        c as u32
    }
}

pub fn eq_ignore_case(a: &Vec<char>, b: &Vec<char>) -> (r: bool)
    ensures
        r == eq_ignore_ascii_case(a@, b@),
{
    if a.len() != b.len() {
        return false;
    }
    let mut i: usize = 0;
    while i < a.len()
        invariant
            a.len() == b.len(),
            i <= a.len(),
            forall|j: int| 0 <= j < i ==> ascii_fold(a@[j]) == ascii_fold(b@[j]),
        decreases a.len() - i,
    {
        if fold_char(a[i]) != fold_char(b[i]) {
            return false;
        }
        i = i + 1;
    }
    true
}

/// Characters of the lower-cased string.
pub fn lower_chars(s: &str) -> (r: Vec<char>)
    ensures
        r@ == spec_to_lowercase(s@),
        is_ascii_text(s@) ==> spec_to_lowercase(s@) == ascii_lower(s@),
{
    let l = to_lowercase(s);
    chars_of(l.as_str())
}

} // verus!
