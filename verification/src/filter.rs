//! Filter engine: conditions on entry fields combined with AND/OR.
//!
//! Operators: `eq`, `neq`, `contains`, `not_contains`, `regex`, `gt`, `lt`, `gte`,
//! `lte`, `startswith`, `endswith`.
use vstd::prelude::*;
use crate::models::{level_name, lookup, EntryV, LogEntry};
use crate::pattern::{regex_is_match, spec_regex_is_match};
use crate::text::{
    chars_of, contains_seq, copy, ends_with, eq_ignore_ascii_case, eq_ignore_case, eq_str, find_lit,
    find_spec, has_prefix, has_suffix, lower_chars, push_str, rfind_lit, rfind_spec, slice,
    spec_to_lowercase, split_char, split_on, starts_with, string_of, trim, trim_chars, vv,
    ascii_lower, is_ascii_text,
};
use crate::time::{spec_rfc3339, to_rfc3339};

verus! {

/// Filter condition.
#[derive(Debug, Clone)]
pub struct Condition {
    /// Field name: "level", "timestamp", "message", "source", or a custom field key.
    pub field: String,
    /// Operator name.
    pub operator: String,
    /// Value to compare against.
    pub value: String,
}

/// The mathematical value of a [`Condition`].
pub struct CondV {
    pub field: Seq<char>,
    pub operator: Seq<char>,
    pub value: Seq<char>,
}

impl View for Condition {
    type V = CondV;

    open spec fn view(&self) -> CondV {
        CondV { field: self.field@, operator: self.operator@, value: self.value@ }
    }
}

/// A collection of conditions with AND/OR logic.
#[derive(Debug, Clone)]
pub struct Filter {
    pub conditions: Vec<Condition>,
    /// "AND" or "OR".
    pub logic: String,
}

pub open spec fn conds_view(c: Seq<Condition>) -> Seq<CondV> {
    c.map_values(|x: Condition| x@)
}

// ---------------------------------------------------------------------------
// Evaluation
// ---------------------------------------------------------------------------

/// The text of an entry that a field name selects; the built-in names are matched
/// without regard to case, a custom field by its exact key; a missing value is "".
pub open spec fn spec_field_value(field: Seq<char>, e: EntryV) -> Seq<char> {
    let f = spec_to_lowercase(field);
    if f == "level"@ {
        level_name(e.level)
    } else if f == "timestamp"@ {
        match e.timestamp {
            Some(t) => spec_rfc3339(t.secs, t.nanos),
            None => Seq::empty(),
        }
    } else if f == "message"@ {
        e.message
    } else if f == "source"@ {
        match e.source {
            Some(s) => s,
            None => Seq::empty(),
        }
    } else {
        match lookup(e.fields, field) {
            Some(v) => v,
            None => Seq::empty(),
        }
    }
}

/// A numeric comparison operator.
#[derive(Debug, Clone, Copy, PartialEq, Eq, Structural)]
pub enum NumOp {
    Gt,
    Lt,
    Ge,
    Le,
}

/// The numeric comparison an (already lower-cased) operator name asks for.
pub open spec fn spec_numeric_op(op: Seq<char>) -> Option<NumOp> {
    if op == "gt"@ || op == "greater_than"@ {
        Some(NumOp::Gt)
    } else if op == "lt"@ || op == "less_than"@ {
        Some(NumOp::Lt)
    } else if op == "gte"@ || op == "ge"@ || op == "greater_or_equal"@ {
        Some(NumOp::Ge)
    } else if op == "lte"@ || op == "le"@ || op == "less_or_equal"@ {
        Some(NumOp::Le)
    } else {
        None
    }
}

/// Whether a field value satisfies an operator (already lower-cased) against a value.
/// Text comparisons ignore case: `eq`/`neq` up to ASCII case, the others on the
/// lower-cased texts; an unknown operator or a pattern that does not compile never
/// holds. For a numeric operator the outcome of comparing the two texts as floating
/// point numbers is `numeric`.
pub open spec fn spec_compare(
    op: Seq<char>,
    fv: Seq<char>,
    value: Seq<char>,
    numeric: bool,
) -> bool {
    if op == "eq"@ || op == "equals"@ {
        eq_ignore_ascii_case(fv, value)
    } else if op == "neq"@ || op == "ne"@ || op == "not_equals"@ {
        !eq_ignore_ascii_case(fv, value)
    } else if op == "contains"@ {
        contains_seq(spec_to_lowercase(fv), spec_to_lowercase(value))
    } else if op == "not_contains"@ || op == "notcontains"@ {
        !contains_seq(spec_to_lowercase(fv), spec_to_lowercase(value))
    } else if op == "regex"@ {
        spec_regex_is_match(value, fv) == Some(true)
    } else if spec_numeric_op(op) is Some {
        numeric
    } else if op == "startswith"@ {
        starts_with(spec_to_lowercase(fv), spec_to_lowercase(value))
    } else if op == "endswith"@ {
        ends_with(spec_to_lowercase(fv), spec_to_lowercase(value))
    } else {
        false
    }
}

/// A condition holds of an entry, given the outcome of its numeric comparison.
pub open spec fn cond_holds(c: CondV, e: EntryV, numeric: bool) -> bool {
    spec_compare(spec_to_lowercase(c.operator), spec_field_value(c.field, e), c.value, numeric)
}

/// An entry passes a filter, given the outcomes of the numeric comparisons of its
/// conditions: with no conditions always; under "OR" when some condition holds;
/// otherwise when every condition holds and the logic is "AND".
pub open spec fn spec_matches(
    conds: Seq<CondV>,
    logic: Seq<char>,
    e: EntryV,
    numeric: Seq<bool>,
) -> bool {
    if conds.len() == 0 {
        true
    } else if logic == "OR"@ {
        exists|i: int| 0 <= i < conds.len() && cond_holds(#[trigger] conds[i], e, numeric[i])
    } else {
        (forall|i: int| 0 <= i < conds.len() ==> cond_holds(#[trigger] conds[i], e, numeric[i]))
            && logic == "AND"@
    }
}

impl Condition {
    /// Get the field value from a log entry (see [`spec_field_value`]).
    pub fn field_value(&self, entry: &LogEntry) -> (r: String)
        ensures
            r@ == spec_field_value(self.field@, entry@),
    {
        let f = lower_chars(self.field.as_str());
        if eq_str(&f, "level") {
            let s = chars_of(entry.level.as_str());
            string_of(&s)
        } else if eq_str(&f, "timestamp") {
            match entry.timestamp {
                Some(t) => to_rfc3339(t),
                None => String::new(),
            }
        } else if eq_str(&f, "message") {
            entry.message.clone()
        } else if eq_str(&f, "source") {
            match &entry.source {
                Some(s) => s.clone(),
                None => String::new(),
            }
        } else {
            match entry.fields.get(self.field.as_str()) {
                Some(v) => v.clone(),
                None => String::new(),
            }
        }
    }

    /// The numeric comparison this condition's operator asks for, if any.
    pub fn numeric_op(&self) -> (r: Option<NumOp>)
        ensures
            r == spec_numeric_op(spec_to_lowercase(self.operator@)),
    {
        let op = lower_chars(self.operator.as_str());
        if eq_str(&op, "gt") || eq_str(&op, "greater_than") {
            Some(NumOp::Gt)
        } else if eq_str(&op, "lt") || eq_str(&op, "less_than") {
            Some(NumOp::Lt)
        } else if eq_str(&op, "gte") || eq_str(&op, "ge") || eq_str(&op, "greater_or_equal") {
            Some(NumOp::Ge)
        } else if eq_str(&op, "lte") || eq_str(&op, "le") || eq_str(&op, "less_or_equal") {
            Some(NumOp::Le)
        } else {
            None
        }
    }

    /// Compare the field value against the condition (see [`spec_compare`]); `numeric`
    /// is the outcome of the floating-point comparison [`Condition::numeric_op`] names.
    pub fn compare(&self, field_value: &str, numeric: bool) -> (r: bool)
        ensures
            r == spec_compare(
                spec_to_lowercase(self.operator@),
                field_value@,
                self.value@,
                numeric,
            ),
            is_ascii_text(self.operator@) ==> r == spec_compare(
                ascii_lower(self.operator@),
                field_value@,
                self.value@,
                numeric,
            ),
            is_ascii_text(self.operator@) && ascii_lower(self.operator@) == "neq"@ ==> r
                == !spec_compare("eq"@, field_value@, self.value@, numeric),
            is_ascii_text(self.operator@) && ascii_lower(self.operator@) == "not_contains"@ ==> r
                == !spec_compare("contains"@, field_value@, self.value@, numeric),
            is_ascii_text(self.operator@) && !known_operator(ascii_lower(self.operator@)) ==> !r,
    {
        proof {
            lemma_compare_negations(ascii_lower(self.operator@), field_value@, self.value@, numeric);
        }
        let op = lower_chars(self.operator.as_str());
        let value = self.value.as_str();
        if eq_str(&op, "eq") || eq_str(&op, "equals") {
            eq_ignore_case(&chars_of(field_value), &chars_of(value))
        } else if eq_str(&op, "neq") || eq_str(&op, "ne") || eq_str(&op, "not_equals") {
            !eq_ignore_case(&chars_of(field_value), &chars_of(value))
        } else if eq_str(&op, "contains") {
            crate::text::contains(&lower_chars(field_value), &lower_chars(value))
        } else if eq_str(&op, "not_contains") || eq_str(&op, "notcontains") {
            !crate::text::contains(&lower_chars(field_value), &lower_chars(value))
        } else if eq_str(&op, "regex") {
            match regex_is_match(value, field_value) {
                Some(b) => b,
                None => false,
            }
        } else if self.numeric_op().is_some() {
            numeric
        } else if eq_str(&op, "startswith") {
            has_prefix(&lower_chars(field_value), &lower_chars(value))
        } else if eq_str(&op, "endswith") {
            has_suffix(&lower_chars(field_value), &lower_chars(value))
        } else {
            false
        }
    }

    /// Does the condition hold of the entry, given its numeric outcome?
    pub fn holds_given(&self, entry: &LogEntry, numeric: bool) -> (r: bool)
        ensures
            r == cond_holds(self@, entry@, numeric),
    {
        let fv = self.field_value(entry);
        self.compare(fv.as_str(), numeric)
    }
}

impl Filter {
    /// Check if a log entry matches this filter (see [`spec_matches`]); `numeric[i]` is
    /// the outcome of the floating-point comparison of condition `i`.
    pub fn matches(&self, entry: &LogEntry, numeric: &Vec<bool>) -> (r: bool)
        requires
            numeric.len() == self.conditions.len(),
        ensures
            r == spec_matches(conds_view(self.conditions@), self.logic@, entry@, numeric@),
    {
        let ghost cs = conds_view(self.conditions@);
        if self.conditions.len() == 0 {
            return true;
        }
        let lg = chars_of(self.logic.as_str());
        let is_or = eq_str(&lg, "OR");
        let mut i: usize = 0;
        while i < self.conditions.len()
            invariant
                cs == conds_view(self.conditions@),
                lg@ == self.logic@,
                cs.len() > 0,
                numeric.len() == self.conditions.len(),
                is_or == (self.logic@ == "OR"@),
                i <= self.conditions.len(),
                is_or ==> forall|j: int|
                    0 <= j < i ==> !cond_holds(#[trigger] cs[j], entry@, numeric@[j]),
                !is_or ==> forall|j: int|
                    0 <= j < i ==> cond_holds(#[trigger] cs[j], entry@, numeric@[j]),
            decreases self.conditions.len() - i,
        {
            let m = self.conditions[i].holds_given(entry, numeric[i]);
            assert(cs[i as int] == self.conditions@[i as int]@);
            if is_or {
                if m {
                    return true;
                }
            } else {
                if !m {
                    return false;
                }
            }
            i = i + 1;
        }
        let r = eq_str(&lg, "AND");
        proof {
            reveal_strlit("AND");
            reveal_strlit("OR");
            if is_or {
                assert(self.logic@.len() == 2);
                assert(!r);
            }
        }
        r
    }
}

// ---------------------------------------------------------------------------
// Parsing filter strings
// ---------------------------------------------------------------------------

/// `s` without one pair of matching surrounding quotes (`"` or `'`).
pub open spec fn spec_strip_quotes(s: Seq<char>) -> Seq<char> {
    if s.len() >= 2 && ((s[0] == '"' && s.last() == '"') || (s[0] == '\'' && s.last() == '\'')) {
        s.subrange(1, s.len() - 1)
    } else {
        s
    }
}

/// The trimmed pieces that are not empty.
pub open spec fn nonempty_trimmed(parts: Seq<Seq<char>>) -> Seq<Seq<char>>
    decreases parts.len(),
{
    if parts.len() == 0 {
        Seq::empty()
    } else {
        let rest = nonempty_trimmed(parts.drop_last());
        let p = trim(parts.last());
        if p.len() > 0 {
            rest.push(p)
        } else {
            rest
        }
    }
}

/// The two trimmed sides around the occurrence of a separator at `i`.
pub open spec fn sides(s: Seq<char>, i: int, n: int) -> Seq<Seq<char>> {
    seq![trim(s.subrange(0, i)), trim(s.subrange(i + n, s.len() as int))]
}

/// How a filter string splits into condition texts: around the last " OR ", else
/// around the last " AND ", else at every comma (dropping empty pieces), else whole.
#[verifier::opaque]
pub open spec fn spec_split_by_logic(s: Seq<char>) -> Seq<Seq<char>> {
    match rfind_spec(s, " OR "@) {
        Some(i) => sides(s, i, 4),
        None => match rfind_spec(s, " AND "@) {
            Some(i) => sides(s, i, 5),
            None => if contains_seq(s, seq![',']) {
                nonempty_trimmed(split_char(s, ','))
            } else {
                seq![s]
            },
        },
    }
}

/// The condition whose operator word occurs last at `i`: the text before it is the
/// field, the text `off` characters after `i` the (unquoted) value.
pub open spec fn cond_around(s: Seq<char>, i: int, off: int, op: Seq<char>) -> CondV {
    CondV {
        field: trim(s.subrange(0, i)),
        operator: op,
        value: spec_strip_quotes(trim(s.subrange(i + off, s.len() as int))),
    }
}

/// A single condition text: `field regex p`, `field contains v`, `field not_contains v`,
/// `field starts_with v` or `field startswith v`, `field ends_with v` or
/// `field endswith v`, then `field OP v` for the comparison
/// words ` neq `, ` eq `, ` gt `, ` lt `, ` gte `, ` lte `, then `field=value`; `None`
/// when none of them applies.
#[verifier::opaque]
pub open spec fn spec_parse_condition(s0: Seq<char>) -> Option<CondV> {
    let s = trim(s0);
    if let Some(i) = rfind_spec(s, " regex "@) {
        Some(cond_around(s, i, 6, "regex"@))
    } else if let Some(i) = rfind_spec(s, " contains "@) {
        Some(cond_around(s, i, 10, "contains"@))
    } else if let Some(i) = rfind_spec(s, " not_contains "@) {
        Some(cond_around(s, i, 14, "not_contains"@))
    } else if let Some(i) = rfind_spec(s, " starts_with "@) {
        Some(cond_around(s, i, 13, "startswith"@))
    } else if let Some(i) = rfind_spec(s, " startswith "@) {
        Some(cond_around(s, i, 12, "startswith"@))
    } else if let Some(i) = rfind_spec(s, " ends_with "@) {
        Some(cond_around(s, i, 11, "endswith"@))
    } else if let Some(i) = rfind_spec(s, " endswith "@) {
        Some(cond_around(s, i, 10, "endswith"@))
    } else if let Some(i) = rfind_spec(s, " neq "@) {
        Some(cond_around(s, i, 5, "neq"@))
    } else if let Some(i) = rfind_spec(s, " eq "@) {
        Some(cond_around(s, i, 4, "eq"@))
    } else if let Some(i) = rfind_spec(s, " gt "@) {
        Some(cond_around(s, i, 4, "gt"@))
    } else if let Some(i) = rfind_spec(s, " lt "@) {
        Some(cond_around(s, i, 4, "lt"@))
    } else if let Some(i) = rfind_spec(s, " gte "@) {
        Some(cond_around(s, i, 5, "gte"@))
    } else if let Some(i) = rfind_spec(s, " lte "@) {
        Some(cond_around(s, i, 5, "lte"@))
    } else if let Some(i) = find_spec(s, "="@) {
        Some(cond_around(s, i, 1, "eq"@))
    } else {
        None
    }
}

/// The error text for a condition that does not parse.
pub open spec fn cannot_parse(s: Seq<char>) -> Seq<char> {
    "cannot parse condition: "@ + s
}

/// Parsing the condition texts in order, stopping at the first that fails.
pub open spec fn parse_all(parts: Seq<Seq<char>>) -> Result<Seq<CondV>, Seq<char>>
    decreases parts.len(),
{
    if parts.len() == 0 {
        Ok(Seq::empty())
    } else {
        match parse_all(parts.drop_last()) {
            Err(e) => Err(e),
            Ok(cs) => {
                let p = trim(parts.last());
                if p.len() == 0 {
                    Ok(cs)
                } else {
                    match spec_parse_condition(p) {
                        Some(c) => Ok(cs.push(c)),
                        None => Err(cannot_parse(trim(p))),
                    }
                }
            },
        }
    }
}

proof fn lemma_parse_all_err(parts: Seq<Seq<char>>, k: int)
    requires
        0 <= k <= parts.len(),
        parse_all(parts.take(k)) is Err,
    ensures
        parse_all(parts) == parse_all(parts.take(k)),
    decreases parts.len() - k,
{
    if k < parts.len() {
        assert(parts.take(k + 1).drop_last() =~= parts.take(k));
        lemma_parse_all_err(parts, k + 1);
    } else {
        assert(parts.take(k) =~= parts);
    }
}

/// How the conditions of a filter string combine: "OR" when its (trimmed) text is
/// split around " OR ", else "AND".
pub open spec fn spec_filter_logic(s: Seq<char>) -> Seq<char> {
    if rfind_spec(trim(s), " OR "@) is Some {
        "OR"@
    } else {
        "AND"@
    }
}

/// What a filter string parses to: its conditions, or the error text.
pub open spec fn spec_parse_filter(s: Seq<char>) -> Result<Seq<CondV>, Seq<char>> {
    let t = trim(s);
    if t.len() == 0 {
        Ok(Seq::empty())
    } else {
        parse_all(spec_split_by_logic(t))
    }
}

/// Strip surrounding quotes from a string.
pub fn strip_quotes(s: &Vec<char>) -> (r: Vec<char>)
    ensures
        r@ == spec_strip_quotes(s@),
{
    let n = s.len();
    if n >= 2 && ((s[0] == '"' && s[n - 1] == '"') || (s[0] == '\'' && s[n - 1] == '\'')) {
        slice(s, 1, n - 1)
    } else {
        copy(s)
    }
}

/// The trimmed text on each side of a separator of length `n` at `i`.
fn split_around(s: &Vec<char>, i: usize, n: usize) -> (r: Vec<Vec<char>>)
    requires
        i + n <= s.len(),
    ensures
        vv(r@) == sides(s@, i as int, n as int),
{
    let left = trim_chars(&slice(s, 0, i));
    let right = trim_chars(&slice(s, i + n, s.len()));
    let mut r: Vec<Vec<char>> = Vec::new();
    r.push(left);
    r.push(right);
    assert(vv(r@) =~= sides(s@, i as int, n as int));
    r
}

/// Split a filter string by AND/OR operators.
pub fn split_by_logic(s: &Vec<char>) -> (r: Vec<Vec<char>>)
    ensures
        vv(r@) == spec_split_by_logic(s@),
{
    reveal(spec_split_by_logic);
    if let Some(i) = rfind_lit(s, " OR ") {
        proof { reveal_strlit(" OR "); }
        return split_around(s, i, 4);
    }
    if let Some(i) = rfind_lit(s, " AND ") {
        proof { reveal_strlit(" AND "); }
        return split_around(s, i, 5);
    }
    let comma: Vec<char> = vec![','];
    assert(comma@ =~= seq![',']);
    if crate::text::contains(s, &comma) {
        let pieces = split_on(s, ',');
        let mut out: Vec<Vec<char>> = Vec::new();
        let mut k: usize = 0;
        while k < pieces.len()
            invariant
                k <= pieces.len(),
                vv(out@) == nonempty_trimmed(vv(pieces@).take(k as int)),
            decreases pieces.len() - k,
        {
            let p = trim_chars(&pieces[k]);
            proof {
                let t = vv(pieces@).take(k + 1);
                assert(t.drop_last() =~= vv(pieces@).take(k as int));
                assert(t.last() == pieces@[k as int]@);
            }
            if p.len() > 0 {
                let ghost before = out@;
                out.push(p);
                assert(vv(out@) =~= vv(before).push(p@));
            }
            k = k + 1;
        }
        assert(vv(pieces@).take(pieces.len() as int) =~= vv(pieces@));
        return out;
    }
    let mut r: Vec<Vec<char>> = Vec::new();
    r.push(copy(s));
    assert(vv(r@) =~= seq![s@]);
    r
}

/// The condition around an operator word at `i`.
fn condition_around(s: &Vec<char>, i: usize, off: usize, op: &str) -> (r: Condition)
    requires
        i + off <= s.len(),
    ensures
        r@ == cond_around(s@, i as int, off as int, op@),
{
    let field = trim_chars(&slice(s, 0, i));
    let value = strip_quotes(&trim_chars(&slice(s, i + off, s.len())));
    Condition { field: string_of(&field), operator: op.to_string(), value: string_of(&value) }
}

/// Parse a single condition string.
pub fn parse_condition(s0: &Vec<char>) -> (r: Result<Condition, String>)
    ensures
        match spec_parse_condition(s0@) {
            Some(c) => r matches Ok(x) && x@ == c,
            None => r matches Err(e) && e@ == cannot_parse(trim(s0@)),
        },
{
    let s = trim_chars(s0);
    proof {
        reveal(spec_parse_condition);
        reveal_strlit(" regex ");
        reveal_strlit(" contains ");
        reveal_strlit(" not_contains ");
        reveal_strlit(" starts_with ");
        reveal_strlit(" startswith ");
        reveal_strlit(" ends_with ");
        reveal_strlit(" endswith ");
        reveal_strlit(" neq ");
        reveal_strlit(" eq ");
        reveal_strlit(" gt ");
        reveal_strlit(" lt ");
        reveal_strlit(" gte ");
        reveal_strlit(" lte ");
        reveal_strlit("=");
    }
    if let Some(i) = rfind_lit(&s, " regex ") {
        return Ok(condition_around(&s, i, 6, "regex"));
    }
    if let Some(i) = rfind_lit(&s, " contains ") {
        return Ok(condition_around(&s, i, 10, "contains"));
    }
    if let Some(i) = rfind_lit(&s, " not_contains ") {
        return Ok(condition_around(&s, i, 14, "not_contains"));
    }
    if let Some(i) = rfind_lit(&s, " starts_with ") {
        return Ok(condition_around(&s, i, 13, "startswith"));
    }
    if let Some(i) = rfind_lit(&s, " startswith ") {
        return Ok(condition_around(&s, i, 12, "startswith"));
    }
    if let Some(i) = rfind_lit(&s, " ends_with ") {
        return Ok(condition_around(&s, i, 11, "endswith"));
    }
    if let Some(i) = rfind_lit(&s, " endswith ") {
        return Ok(condition_around(&s, i, 10, "endswith"));
    }
    if let Some(i) = rfind_lit(&s, " neq ") {
        return Ok(condition_around(&s, i, 5, "neq"));
    }
    if let Some(i) = rfind_lit(&s, " eq ") {
        return Ok(condition_around(&s, i, 4, "eq"));
    }
    if let Some(i) = rfind_lit(&s, " gt ") {
        return Ok(condition_around(&s, i, 4, "gt"));
    }
    if let Some(i) = rfind_lit(&s, " lt ") {
        return Ok(condition_around(&s, i, 4, "lt"));
    }
    if let Some(i) = rfind_lit(&s, " gte ") {
        return Ok(condition_around(&s, i, 5, "gte"));
    }
    if let Some(i) = rfind_lit(&s, " lte ") {
        return Ok(condition_around(&s, i, 5, "lte"));
    }
    if let Some(i) = find_lit(&s, "=") {
        return Ok(condition_around(&s, i, 1, "eq"));
    }
    let mut msg = String::new();
    push_str(&mut msg, "cannot parse condition: ");
    push_str(&mut msg, string_of(&s).as_str());
    Err(msg)
}

/// Parse a filter string like "level=ERROR" or "message contains 'error'" or
/// "status gt 100"; conditions split around " OR " combine with "OR", all others
/// with "AND".
pub fn parse_filter_string(s: &str) -> (r: Result<Filter, String>)
    ensures
        match spec_parse_filter(s@) {
            Ok(cs) => r matches Ok(f) && conds_view(f.conditions@) == cs && f.logic@
                == spec_filter_logic(s@),
            Err(e) => r matches Err(m) && m@ == e,
        },
{
    let t = trim_chars(&chars_of(s));
    let logic = if rfind_lit(&t, " OR ").is_some() {
        "OR".to_string()
    } else {
        "AND".to_string()
    };
    proof {
        reveal_strlit(" OR ");
    }
    assert(logic@ == spec_filter_logic(s@));
    if t.len() == 0 {
        return Ok(Filter { conditions: Vec::new(), logic });
    }
    let parts = split_by_logic(&t);
    let mut conditions: Vec<Condition> = Vec::new();
    assert(vv(parts@).take(0) =~= Seq::<Seq<char>>::empty());
    assert(conds_view(conditions@) =~= Seq::<CondV>::empty());
    let mut k: usize = 0;
    while k < parts.len()
        invariant
            k <= parts.len(),
            t@ == trim(s@),
            t@.len() > 0,
            vv(parts@) == spec_split_by_logic(t@),
            parse_all(vv(parts@).take(k as int)) == Ok::<Seq<CondV>, Seq<char>>(
                conds_view(conditions@),
            ),
        decreases parts.len() - k,
    {
        proof {
            let tk = vv(parts@).take(k + 1);
            assert(tk.drop_last() =~= vv(parts@).take(k as int));
            assert(tk.last() == parts@[k as int]@);
        }
        let p = trim_chars(&parts[k]);
        if p.len() > 0 {
            match parse_condition(&p) {
                Ok(c) => {
                    let ghost before = conditions@;
                    conditions.push(c);
                    assert(conds_view(conditions@) =~= conds_view(before).push(c@));
                },
                Err(e) => {
                    proof {
                        let tk = vv(parts@).take(k + 1);
                        assert(tk.drop_last() =~= vv(parts@).take(k as int));
                        assert(trim(tk.last()) == p@);
                        assert(parse_all(tk) == Err::<Seq<CondV>, Seq<char>>(e@));
                        lemma_parse_all_err(vv(parts@), k + 1);
                    }
                    return Err(e);
                },
            }
        }
        k = k + 1;
    }
    assert(vv(parts@).take(parts.len() as int) =~= vv(parts@));
    Ok(Filter { conditions, logic })
}

/// A filter without conditions lets every entry through, whatever its logic.
pub proof fn lemma_empty_filter_passes(logic: Seq<char>, e: EntryV, numeric: Seq<bool>)
    ensures
        spec_matches(Seq::empty(), logic, e, numeric),
{
}

/// A blank filter string parses to a filter without conditions.
pub proof fn lemma_blank_filter_string(s: Seq<char>)
    requires
        trim(s).len() == 0,
    ensures
        spec_parse_filter(s) == Ok::<Seq<CondV>, Seq<char>>(Seq::empty()),
{
}

/// The operator names a condition knows.
pub open spec fn known_operator(op: Seq<char>) -> bool {
    ||| op == "eq"@ || op == "equals"@ || op == "neq"@ || op == "ne"@ || op == "not_equals"@
    ||| op == "contains"@ || op == "not_contains"@ || op == "notcontains"@ || op == "regex"@
    ||| spec_numeric_op(op) is Some
    ||| op == "startswith"@ || op == "endswith"@
}

/// Negated operators: `neq` holds exactly when `eq` does not, `not_contains` exactly
/// when `contains` does not; an operator the condition does not know never holds.
pub proof fn lemma_compare_negations(op: Seq<char>, fv: Seq<char>, value: Seq<char>, numeric: bool)
    ensures
        spec_compare("neq"@, fv, value, numeric) == !spec_compare("eq"@, fv, value, numeric),
        spec_compare("not_contains"@, fv, value, numeric) == !spec_compare(
            "contains"@,
            fv,
            value,
            numeric,
        ),
        !known_operator(op) ==> !spec_compare(op, fv, value, numeric),
{
    reveal_strlit("eq");
    reveal_strlit("equals");
    reveal_strlit("neq");
    reveal_strlit("ne");
    reveal_strlit("not_equals");
    reveal_strlit("contains");
    reveal_strlit("not_contains");
    reveal_strlit("notcontains");
    reveal_strlit("regex");
    reveal_strlit("gt");
    reveal_strlit("greater_than");
    reveal_strlit("lt");
    reveal_strlit("less_than");
    reveal_strlit("gte");
    reveal_strlit("ge");
    reveal_strlit("greater_or_equal");
    reveal_strlit("lte");
    reveal_strlit("le");
    reveal_strlit("less_or_equal");
    assert("neq"@ != "eq"@ && "neq"@ != "equals"@) by {
        assert("neq"@.len() != "eq"@.len() && "neq"@.len() != "equals"@.len());
    }
    assert("contains"@ != "eq"@ && "contains"@ != "equals"@ && "contains"@ != "neq"@
        && "contains"@ != "ne"@ && "contains"@ != "not_equals"@) by {
        assert("contains"@.len() == 8);
    }
    assert("not_contains"@ != "eq"@ && "not_contains"@ != "equals"@ && "not_contains"@ != "neq"@
        && "not_contains"@ != "ne"@ && "not_contains"@ != "not_equals"@ && "not_contains"@
        != "contains"@) by {
        assert("not_contains"@.len() == 12);
    }
}

/// Filter logic: a filter with conditions passes an entry under "OR" exactly when one
/// condition holds, under "AND" exactly when all hold; without conditions it passes
/// every entry.
pub proof fn lemma_filter_logic(conds: Seq<CondV>, logic: Seq<char>, e: EntryV, numeric: Seq<bool>)
    ensures
        conds.len() == 0 ==> spec_matches(conds, logic, e, numeric),
        conds.len() > 0 && logic == "OR"@ ==> (spec_matches(conds, logic, e, numeric) <==> exists|i: int|
            0 <= i < conds.len() && cond_holds(#[trigger] conds[i], e, numeric[i])),
        conds.len() > 0 && logic == "AND"@ ==> (spec_matches(conds, logic, e, numeric) <==> forall|i: int|
            0 <= i < conds.len() ==> cond_holds(#[trigger] conds[i], e, numeric[i])),
{
    reveal_strlit("OR");
    reveal_strlit("AND");
    assert("AND"@ != "OR"@) by {
        assert("AND"@.len() != "OR"@.len());
    }
}

/// Prefix and suffix operators: `startswith` holds exactly when the lower-cased value
/// begins the lower-cased field value, `endswith` exactly when it ends it.
pub proof fn lemma_prefix_suffix_ops(fv: Seq<char>, value: Seq<char>, numeric: bool)
    ensures
        ({
            let f = spec_to_lowercase(fv);
            let v = spec_to_lowercase(value);
            &&& spec_compare("startswith"@, fv, value, numeric) == (v.len() <= f.len() && forall|k: int|
                0 <= k < v.len() ==> f[k] == v[k])
            &&& spec_compare("endswith"@, fv, value, numeric) == (v.len() <= f.len() && forall|k: int|
                0 <= k < v.len() ==> f[f.len() - v.len() + k] == v[k])
        }),
{
    reveal_strlit("eq");
    reveal_strlit("equals");
    reveal_strlit("neq");
    reveal_strlit("ne");
    reveal_strlit("not_equals");
    reveal_strlit("contains");
    reveal_strlit("not_contains");
    reveal_strlit("notcontains");
    reveal_strlit("regex");
    reveal_strlit("gt");
    reveal_strlit("greater_than");
    reveal_strlit("lt");
    reveal_strlit("less_than");
    reveal_strlit("gte");
    reveal_strlit("ge");
    reveal_strlit("greater_or_equal");
    reveal_strlit("lte");
    reveal_strlit("le");
    reveal_strlit("less_or_equal");
    reveal_strlit("startswith");
    reveal_strlit("endswith");
    assert("startswith"@ != "not_equals"@) by {
        assert("startswith"@[0] != "not_equals"@[0]);
    }
    assert("endswith"@ != "contains"@) by {
        assert("endswith"@[0] != "contains"@[0]);
    }
    assert("startswith"@.len() != "gt"@.len());
    assert("startswith"@.len() != "greater_than"@.len());
    assert("startswith"@.len() != "lt"@.len());
    assert("startswith"@.len() != "less_than"@.len());
    assert("startswith"@.len() != "gte"@.len());
    assert("startswith"@.len() != "ge"@.len());
    assert("startswith"@.len() != "greater_or_equal"@.len());
    assert("startswith"@.len() != "lte"@.len());
    assert("startswith"@.len() != "le"@.len());
    assert("startswith"@.len() != "less_or_equal"@.len());
    assert("endswith"@.len() != "gt"@.len());
    assert("endswith"@.len() != "greater_than"@.len());
    assert("endswith"@.len() != "lt"@.len());
    assert("endswith"@.len() != "less_than"@.len());
    assert("endswith"@.len() != "gte"@.len());
    assert("endswith"@.len() != "ge"@.len());
    assert("endswith"@.len() != "greater_or_equal"@.len());
    assert("endswith"@.len() != "lte"@.len());
    assert("endswith"@.len() != "le"@.len());
    assert("endswith"@.len() != "less_or_equal"@.len());
    assert(spec_numeric_op("startswith"@) is None);
    assert(spec_numeric_op("endswith"@) is None);
    assert(spec_compare("startswith"@, fv, value, numeric) == starts_with(
        spec_to_lowercase(fv),
        spec_to_lowercase(value),
    ));
    assert(spec_compare("endswith"@, fv, value, numeric) == ends_with(
        spec_to_lowercase(fv),
        spec_to_lowercase(value),
    ));
    let f = spec_to_lowercase(fv);
    let v = spec_to_lowercase(value);
    if v.len() <= f.len() {
        if forall|k: int| 0 <= k < v.len() ==> f[k] == v[k] {
            assert(f.subrange(0, v.len() as int) =~= v);
        }
        if f.subrange(0, v.len() as int) == v {
            assert forall|k: int| 0 <= k < v.len() implies f[k] == v[k] by {
                assert(f.subrange(0, v.len() as int)[k] == f[k]);
            }
        }
        if forall|k: int| 0 <= k < v.len() ==> f[f.len() - v.len() + k] == v[k] {
            assert(f.subrange(f.len() - v.len(), f.len() as int) =~= v);
        }
        if f.subrange(f.len() - v.len(), f.len() as int) == v {
            assert forall|k: int| 0 <= k < v.len() implies f[f.len() - v.len() + k] == v[k] by {
                assert(f.subrange(f.len() - v.len(), f.len() as int)[k] == f[f.len() - v.len() + k]);
            }
        }
    }
}

} // verus!
