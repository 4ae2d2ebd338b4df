//! Comparison filters written in a compact form such as `assetDepth>1000`.
use vstd::prelude::*;

use crate::number::{fixed_value, parse_fixed, unsigned_value};
use crate::schema::{position_of, Schema};
use crate::text::chars_of;

verus! {

/// A comparison between a sample's field value and a constant.
#[derive(Clone, Copy, Debug, PartialEq, Eq, Structural)]
pub enum CompareOp {
    GreaterEq,
    LessEq,
    Greater,
    Less,
    Equal,
}

/// A parsed filter: the position of a schema field, a comparison and a constant.
#[derive(Clone, Copy, Debug, PartialEq, Eq, Structural)]
pub struct Filter {
    pub field: usize,
    pub op: CompareOp,
    pub value: u64,
}

/// Whether `x op v` holds.
pub open spec fn op_holds(op: CompareOp, x: u64, v: u64) -> bool {
    match op {
        CompareOp::GreaterEq => x >= v,
        CompareOp::LessEq => x <= v,
        CompareOp::Greater => x > v,
        CompareOp::Less => x < v,
        CompareOp::Equal => x == v,
    }
}

/// Whether a sample with the field values `values` passes the filter.
pub open spec fn filter_holds(f: Filter, values: Seq<u64>) -> bool {
    f.field < values.len() && op_holds(f.op, values[f.field as int], f.value)
}

/// Whether a sample passes every filter of the list.
pub open spec fn passes_all(filters: Seq<Filter>, values: Seq<u64>) -> bool {
    forall|k: int| 0 <= k < filters.len() ==> filter_holds(#[trigger] filters[k], values)
}

pub open spec fn is_op_char(c: char) -> bool {
    c == '>' || c == '<' || c == '='
}

pub open spec fn is_space(c: char) -> bool {
    c == ' ' || c == '\t' || c == '\n' || c == '\r'
}

/// The least position at or after `i` that holds an operator character.
pub open spec fn first_op_from(s: Seq<char>, i: int) -> Option<int>
    decreases s.len() - i,
{
    if i < 0 || i >= s.len() {
        None
    } else if is_op_char(s[i]) {
        Some(i)
    } else {
        first_op_from(s, i + 1)
    }
}

/// The position of the first non-space character at or after `i`, or the end.
pub open spec fn skip_leading(s: Seq<char>, i: int) -> int
    decreases s.len() - i,
{
    if 0 <= i < s.len() && is_space(s[i]) {
        skip_leading(s, i + 1)
    } else {
        i
    }
}

/// One past the last non-space character before `j`, but not below `lo`.
pub open spec fn skip_trailing(s: Seq<char>, lo: int, j: int) -> int
    decreases j - lo,
{
    if lo < j && j <= s.len() && is_space(s[j - 1]) {
        skip_trailing(s, lo, j - 1)
    } else {
        j
    }
}

/// `s` without its leading and trailing spaces.
pub open spec fn trim(s: Seq<char>) -> Seq<char> {
    let a = skip_leading(s, 0);
    s.subrange(a, skip_trailing(s, a, s.len() as int))
}

/// The comparison written at position `p` of `s`, and where the constant starts.
pub open spec fn op_at(s: Seq<char>, p: int) -> (CompareOp, int) {
    let compound = p + 1 < s.len() && s[p + 1] == '=';
    if s[p] == '>' && compound {
        (CompareOp::GreaterEq, p + 2)
    } else if s[p] == '<' && compound {
        (CompareOp::LessEq, p + 2)
    } else if s[p] == '>' {
        (CompareOp::Greater, p + 1)
    } else if s[p] == '<' {
        (CompareOp::Less, p + 1)
    } else {
        (CompareOp::Equal, p + 1)
    }
}

/// The filter that `s` spells against `schema`: a stored field name, an
/// operator (`>=` and `<=` are read before `>` and `<`), then a decimal
/// constant with at most as many decimal places as the field carries, read in
/// the field's units; spaces are allowed around both. Text that spells none,
/// names no field, or names a field with more than 18 decimal places gives `None`.
pub open spec fn parse_filter_spec(schema: Schema, s: Seq<char>) -> Option<Filter> {
    match first_op_from(s, 0) {
        None => None,
        Some(p) => {
            let (op, vstart) = op_at(s, p);
            filter_from_parts(
                schema,
                trim(s.subrange(0, p)),
                op,
                trim(s.subrange(vstart, s.len() as int)),
            )
        },
    }
}

/// The filter on the field stored under `name`, comparing with `op` against
/// the constant `text` read in the field's units.
pub open spec fn filter_from_parts(schema: Schema, name: Seq<char>, op: CompareOp, text: Seq<char>) -> Option<
    Filter,
> {
    match position_of(schema.names(), name) {
        Some(i) => {
            let d = schema.decimals()[i];
            if d > 18 {
                None
            } else {
                match fixed_value(text, d as nat) {
                    Some(v) => Some(Filter { field: i as usize, op, value: v }),
                    None => None,
                }
            }
        },
        None => None,
    }
}

fn filter_from_range(
    schema: &Schema,
    s: &Vec<char>,
    na: usize,
    nb: usize,
    op: CompareOp,
    va: usize,
    vb: usize,
) -> (r: Option<Filter>)
    requires
        na <= nb <= s@.len(),
        va <= vb <= s@.len(),
    ensures
        r == filter_from_parts(
            *schema,
            s@.subrange(na as int, nb as int),
            op,
            s@.subrange(va as int, vb as int),
        ),
{
    match schema.find_name(s, na, nb) {
        Some(i) => {
            let d = schema.decimals_of(i);
            if d > 18 {
                None
            } else {
                match parse_fixed(s, va, vb, d) {
                    Some(v) => Some(Filter { field: i, op, value: v }),
                    None => None,
                }
            }
        },
        None => None,
    }
}

/// The filters that the strings spell, in order, dropping those that spell none.
pub open spec fn parse_filters_spec(schema: Schema, texts: Seq<Seq<char>>) -> Seq<Filter>
    decreases texts.len(),
{
    if texts.len() == 0 {
        Seq::empty()
    } else {
        let rest = parse_filters_spec(schema, texts.drop_last());
        match parse_filter_spec(schema, texts.last()) {
            Some(f) => rest.push(f),
            None => rest,
        }
    }
}

/// The bounds of `s[lo..hi]` with its surrounding spaces removed.
fn trim_bounds(s: &Vec<char>, lo: usize, hi: usize) -> (r: (usize, usize))
    requires
        lo <= hi <= s@.len(),
    ensures
        lo <= r.0 <= r.1 <= hi,
        s@.subrange(r.0 as int, r.1 as int) == trim(s@.subrange(lo as int, hi as int)),
{
    let ghost t = s@.subrange(lo as int, hi as int);
    let mut a: usize = lo;
    while a < hi && (s[a] == ' ' || s[a] == '\t' || s[a] == '\n' || s[a] == '\r')
        invariant
            lo <= a <= hi <= s@.len(),
            t == s@.subrange(lo as int, hi as int),
            skip_leading(t, a - lo) == skip_leading(t, 0),
        decreases hi - a,
    {
        a = a + 1;
    }
    let mut b: usize = hi;
    while b > a && (s[b - 1] == ' ' || s[b - 1] == '\t' || s[b - 1] == '\n' || s[b - 1] == '\r')
        invariant
            lo <= a <= b <= hi <= s@.len(),
            t == s@.subrange(lo as int, hi as int),
            skip_leading(t, 0) == a - lo,
            skip_trailing(t, a - lo, b - lo) == skip_trailing(t, a - lo, t.len() as int),
        decreases b - a,
    {
        b = b - 1;
    }
    proof {
        assert(s@.subrange(a as int, b as int) =~= t.subrange(a - lo, b - lo));
    }
    (a, b)
}

/// Parses one filter against the schema's stored field names.
pub fn parse_filter(schema: &Schema, text: &str) -> (r: Option<Filter>)
    ensures
        r == parse_filter_spec(*schema, text@),
{
    let s = chars_of(text);
    let n = s.len();
    let mut p: usize = 0;
    while p < n && !(s[p] == '>' || s[p] == '<' || s[p] == '=')
        invariant
            n == s@.len(),
            p <= n,
            first_op_from(s@, p as int) == first_op_from(s@, 0),
        decreases n - p,
    {
        p = p + 1;
    }
    if p == n {
        return None;
    }
    let compound = p + 1 < n && s[p + 1] == '=';
    let (op, vstart) = if s[p] == '>' && compound {
        (CompareOp::GreaterEq, p + 2)
    } else if s[p] == '<' && compound {
        (CompareOp::LessEq, p + 2)
    } else if s[p] == '>' {
        (CompareOp::Greater, p + 1)
    } else if s[p] == '<' {
        (CompareOp::Less, p + 1)
    } else {
        (CompareOp::Equal, p + 1)
    };
    proof {
        assert(s@.subrange(0, n as int) =~= s@);
    }
    let (na, nb) = trim_bounds(&s, 0, p);
    let (va, vb) = trim_bounds(&s, vstart, n);
    filter_from_range(schema, &s, na, nb, op, va, vb)
}

/// Parses each filter string, dropping those that spell no filter.
pub fn parse_filters(schema: &Schema, texts: &Vec<String>) -> (r: Vec<Filter>)
    ensures
        r@ == parse_filters_spec(*schema, texts@.map_values(|t: String| t@)),
{
    let ghost all = texts@.map_values(|t: String| t@);
    let mut out: Vec<Filter> = Vec::new();
    let mut i: usize = 0;
    while i < texts.len()
        invariant
            i <= texts@.len(),
            all == texts@.map_values(|t: String| t@),
            out@ == parse_filters_spec(*schema, all.subrange(0, i as int)),
        decreases texts@.len() - i,
    {
        let parsed = parse_filter(schema, texts[i].as_str());
        proof {
            assert(all.subrange(0, i + 1).drop_last() =~= all.subrange(0, i as int));
            assert(all.subrange(0, i + 1).last() == texts@[i as int]@);
        }
        match parsed {
            Some(f) => out.push(f),
            None => {},
        }
        i = i + 1;
    }
    proof {
        assert(all.subrange(0, texts@.len() as int) =~= all);
    }
    out
}

/// Whether the values pass one filter.
pub fn check_filter(f: &Filter, values: &Vec<u64>) -> (r: bool)
    ensures
        r == filter_holds(*f, values@),
{
    if f.field >= values.len() {
        return false;
    }
    let x = values[f.field];
    match f.op {
        CompareOp::GreaterEq => x >= f.value,
        CompareOp::LessEq => x <= f.value,
        CompareOp::Greater => x > f.value,
        CompareOp::Less => x < f.value,
        CompareOp::Equal => x == f.value,
    }
}

/// Whether the values pass every filter of the list.
pub fn check_all(filters: &Vec<Filter>, values: &Vec<u64>) -> (r: bool)
    ensures
        r == passes_all(filters@, values@),
{
    let mut k: usize = 0;
    while k < filters.len()
        invariant
            k <= filters@.len(),
            forall|j: int| 0 <= j < k ==> filter_holds(#[trigger] filters@[j], values@),
        decreases filters@.len() - k,
    {
        if !check_filter(&filters[k], values) {
            return false;
        }
        k = k + 1;
    }
    true
}

/// A filter with `>=` lets through every sample that the same filter with `>` does.
pub proof fn lemma_greater_eq_admits_greater(
    before: Seq<Filter>,
    after: Seq<Filter>,
    field: usize,
    value: u64,
    values: Seq<u64>,
)
    requires
        passes_all(
            before + seq![Filter { field, op: CompareOp::Greater, value }] + after,
            values,
        ),
    ensures
        passes_all(
            before + seq![Filter { field, op: CompareOp::GreaterEq, value }] + after,
            values,
        ),
{
    let gt = before + seq![Filter { field, op: CompareOp::Greater, value }] + after;
    let ge = before + seq![Filter { field, op: CompareOp::GreaterEq, value }] + after;
    assert forall|k: int| 0 <= k < ge.len() implies filter_holds(#[trigger] ge[k], values) by {
        assert(filter_holds(gt[k], values));
    }
}

/// Whether `n` can name a field in a compact filter: not empty, and free of
/// spaces and operator characters.
pub open spec fn plain_name(n: Seq<char>) -> bool {
    n.len() > 0 && forall|i: int| 0 <= i < n.len() ==> !is_op_char(#[trigger] n[i]) && !is_space(n[i])
}

proof fn lemma_first_op_after_name(s: Seq<char>, n: nat, k: int)
    requires
        0 <= k <= n < s.len(),
        forall|i: int| 0 <= i < n ==> !is_op_char(#[trigger] s[i]),
        is_op_char(s[n as int]),
    ensures
        first_op_from(s, k) == Some(n as int),
    decreases n - k,
{
    if k < n {
        lemma_first_op_after_name(s, n, k + 1);
    }
}

proof fn lemma_trim_plain(t: Seq<char>)
    requires
        t.len() > 0,
        forall|i: int| 0 <= i < t.len() ==> !is_space(#[trigger] t[i]),
    ensures
        trim(t) == t,
{
    assert(skip_leading(t, 0) == 0);
    assert(skip_trailing(t, 0, t.len() as int) == t.len());
    assert(t.subrange(0, t.len() as int) =~= t);
}

/// Spelled `name>=digits` and `name>digits`, a filter reads as the same field
/// and constant, compared with `>=` and with `>`.
pub proof fn lemma_parse_greater_pair(schema: Schema, n: Seq<char>, d: Seq<char>)
    requires
        plain_name(n),
        position_of(schema.names(), n) is Some,
        schema.decimals()[position_of(schema.names(), n)->0] <= 18,
        unsigned_value(d) is Some,
        fixed_value(d, schema.decimals()[position_of(schema.names(), n)->0] as nat) is Some,
    ensures
        parse_filter_spec(schema, n + ">="@ + d) == Some(
            Filter {
                field: position_of(schema.names(), n)->0 as usize,
                op: CompareOp::GreaterEq,
                value: fixed_value(d, schema.decimals()[position_of(schema.names(), n)->0] as nat)->0,
            },
        ),
        parse_filter_spec(schema, n + ">"@ + d) == Some(
            Filter {
                field: position_of(schema.names(), n)->0 as usize,
                op: CompareOp::Greater,
                value: fixed_value(d, schema.decimals()[position_of(schema.names(), n)->0] as nat)->0,
            },
        ),
{
    reveal_strlit(">=");
    reveal_strlit(">");
    let p = n.len() as int;
    assert(crate::number::all_digits(d) && d.len() > 0);
    assert forall|i: int| 0 <= i < d.len() implies !is_space(#[trigger] d[i]) by {
        assert(crate::number::is_digit(d[i]));
    }
    lemma_trim_plain(n);
    lemma_trim_plain(d);
    let s1 = n + ">="@ + d;
    let s2 = n + ">"@ + d;
    assert forall|i: int| 0 <= i < p implies !is_op_char(#[trigger] s1[i]) by {
        assert(s1[i] == n[i]);
    }
    assert forall|i: int| 0 <= i < p implies !is_op_char(#[trigger] s2[i]) by {
        assert(s2[i] == n[i]);
    }
    assert(s1[p] == '>');
    assert(s2[p] == '>');
    lemma_first_op_after_name(s1, n.len(), 0);
    lemma_first_op_after_name(s2, n.len(), 0);
    assert(s1[p + 1] == '=');
    assert(s2[p + 1] == d[0]);
    assert(crate::number::is_digit(d[0]));
    assert(s1.subrange(0, p) =~= n);
    assert(s2.subrange(0, p) =~= n);
    assert(s1.subrange(p + 2, s1.len() as int) =~= d);
    assert(s2.subrange(p + 1, s2.len() as int) =~= d);
}

} // verus!
