//! Reduced bucket values, the ordering of buckets, and pagination.
use vstd::prelude::*;

use crate::bucket::{Bucket, BucketModel};
use crate::schema::{Reducer, Schema};

verus! {

/// Number of buckets returned when no page size is given.
pub const DEFAULT_PAGE_SIZE: usize = 10;

/// The largest number of buckets that count mode returns.
pub const MAX_COUNT: usize = 400;

/// The value of field `j` of a bucket under its reducer: the total, or the
/// total divided by the number of samples, rounded down.
pub open spec fn reduced(b: BucketModel, reducer: Reducer, j: int) -> int {
    match reducer {
        Reducer::Sum => b.totals[j],
        Reducer::Average => b.totals[j] / (b.count as int),
    }
}

impl Bucket {
    /// The value of field `j` under `reducer`.
    pub fn value(&self, reducer: Reducer, j: usize) -> (r: u128)
        requires
            j < self.totals@.len(),
            self.count >= 1,
        ensures
            r == reduced(self@, reducer, j as int),
    {
        match reducer {
            Reducer::Sum => self.totals[j],
            Reducer::Average => self.totals[j] / (self.count as u128),
        }
    }

    /// The reduced value of every field of the schema, in order.
    pub fn values(&self, schema: &Schema) -> (r: Vec<u128>)
        requires
            self.totals@.len() == schema.width(),
            self.count >= 1,
        ensures
            r@.len() == schema.width(),
            forall|j: int|
                0 <= j < r@.len() ==> #[trigger] r@[j] == reduced(self@, schema.reducers()[j], j),
    {
        let mut out: Vec<u128> = Vec::new();
        let mut j: usize = 0;
        while j < schema.len()
            invariant
                self.totals@.len() == schema.width(),
                self.count >= 1,
                j <= schema.width(),
                out@.len() == j,
                forall|k: int|
                    0 <= k < j ==> #[trigger] out@[k] == reduced(self@, schema.reducers()[k], k),
            decreases schema.width() - j,
        {
            out.push(self.value(schema.reducer(j), j));
            j = j + 1;
        }
        out
    }
}

/// What buckets are ordered by.
#[derive(Clone, Copy, Debug, PartialEq, Eq, Structural)]
pub enum SortField {
    /// The aligned bucket boundary.
    BucketStart,
    /// The least start time of the bucket's samples.
    StartTime,
    /// The greatest end time of the bucket's samples.
    EndTime,
    /// The reduced value of the schema field at this position.
    Field(usize),
}

/// A sort field and a direction.
#[derive(Clone, Copy, Debug, PartialEq, Eq, Structural)]
pub struct SortOrder {
    pub field: SortField,
    pub descending: bool,
}

/// The number a bucket is ordered by; a field the schema lacks orders all alike.
pub open spec fn sort_key(b: BucketModel, field: SortField, reducers: Seq<Reducer>) -> int {
    match field {
        SortField::BucketStart => b.bucket_start,
        SortField::StartTime => b.start_time,
        SortField::EndTime => b.end_time,
        SortField::Field(j) => if j < reducers.len() && j < b.totals.len() {
            reduced(b, reducers[j as int], j as int)
        } else {
            0
        },
    }
}

/// Whether `a` must come strictly before `b`.
pub open spec fn precedes(a: BucketModel, b: BucketModel, order: SortOrder, reducers: Seq<Reducer>) -> bool {
    if order.descending {
        sort_key(a, order.field, reducers) > sort_key(b, order.field, reducers)
    } else {
        sort_key(a, order.field, reducers) < sort_key(b, order.field, reducers)
    }
}

/// Where `x` goes into `s` at or after `i`: before the first element it precedes.
pub open spec fn insert_pos(
    s: Seq<BucketModel>,
    x: BucketModel,
    order: SortOrder,
    reducers: Seq<Reducer>,
    i: int,
) -> int
    decreases s.len() - i,
{
    if i < 0 || i >= s.len() {
        s.len() as int
    } else if precedes(x, s[i], order, reducers) {
        i
    } else {
        insert_pos(s, x, order, reducers, i + 1)
    }
}

/// The buckets in the requested order; buckets with equal keys keep their
/// relative order.
pub open spec fn sorted_spec(s: Seq<BucketModel>, order: SortOrder, reducers: Seq<Reducer>) -> Seq<
    BucketModel,
>
    decreases s.len(),
{
    if s.len() == 0 {
        Seq::empty()
    } else {
        let t = sorted_spec(s.drop_last(), order, reducers);
        t.insert(insert_pos(t, s.last(), order, reducers, 0), s.last())
    }
}

/// Whether no bucket of `s` must come before one that stands earlier.
pub open spec fn in_order(s: Seq<BucketModel>, order: SortOrder, reducers: Seq<Reducer>) -> bool {
    forall|a: int, b: int|
        0 <= a < b < s.len() ==> !precedes(s[b], s[a], order, reducers)
}

/// Whether the bucket can be ordered: its totals match the schema and it holds a sample.
pub open spec fn orderable(b: BucketModel, width: nat) -> bool {
    b.totals.len() == width && b.count >= 1
}

fn sort_value(b: &Bucket, field: SortField, schema: &Schema) -> (r: (i64, u128))
    requires
        orderable(b@, schema.width()),
    ensures
        match field {
            SortField::Field(_) => r.1 == sort_key(b@, field, schema.reducers()) && r.0 == 0,
            _ => r.0 == sort_key(b@, field, schema.reducers()) && r.1 == 0,
        },
{
    match field {
        SortField::BucketStart => (b.bucket_start, 0),
        SortField::StartTime => (b.start_time, 0),
        SortField::EndTime => (b.end_time, 0),
        SortField::Field(j) => if j < schema.len() {
            (0, b.value(schema.reducer(j), j))
        } else {
            (0, 0)
        },
    }
}

/// Whether `a` must come strictly before `b`.
pub fn bucket_precedes(a: &Bucket, b: &Bucket, order: SortOrder, schema: &Schema) -> (r: bool)
    requires
        orderable(a@, schema.width()),
        orderable(b@, schema.width()),
    ensures
        r == precedes(a@, b@, order, schema.reducers()),
{
    let ka = sort_value(a, order.field, schema);
    let kb = sort_value(b, order.field, schema);
    match order.field {
        SortField::Field(_) => if order.descending {
            ka.1 > kb.1
        } else {
            ka.1 < kb.1
        },
        _ => if order.descending {
            ka.0 > kb.0
        } else {
            ka.0 < kb.0
        },
    }
}

/// Orders the buckets, keeping the relative order of buckets with equal keys.
pub fn sort_buckets(buckets: Vec<Bucket>, order: SortOrder, schema: &Schema) -> (r: Vec<Bucket>)
    requires
        forall|k: int| 0 <= k < buckets@.len() ==> orderable(#[trigger] buckets@[k]@, schema.width()),
    ensures
        r@.map_values(|b: Bucket| b@) == sorted_spec(
            buckets@.map_values(|b: Bucket| b@),
            order,
            schema.reducers(),
        ),
        in_order(r@.map_values(|b: Bucket| b@), order, schema.reducers()),
        forall|k: int| 0 <= k < r@.len() ==> orderable(#[trigger] r@[k]@, schema.width()),
{
    let ghost input = buckets@.map_values(|b: Bucket| b@);
    let ghost reducers = schema.reducers();
    let total = buckets.len();
    let mut rest = buckets;
    let mut out: Vec<Bucket> = Vec::new();
    let ghost n = input.len();
    let mut i: usize = 0;
    while rest.len() > 0
        invariant
            n == input.len(),
            n == total,
            i + rest@.len() == n,
            rest@.map_values(|b: Bucket| b@) == input.subrange(i as int, n as int),
            out@.map_values(|b: Bucket| b@) == sorted_spec(
                input.subrange(0, i as int),
                order,
                reducers,
            ),
            reducers == schema.reducers(),
            forall|k: int| 0 <= k < n ==> orderable(#[trigger] input[k], schema.width()),
            forall|k: int| 0 <= k < out@.len() ==> orderable(#[trigger] out@[k]@, schema.width()),
        decreases rest@.len(),
    {
        let ghost before = rest@;
        let x = rest.remove(0);
        let ghost sorted = out@.map_values(|b: Bucket| b@);
        proof {
            assert(before.map_values(|b: Bucket| b@)[0] == input.subrange(i as int, n as int)[0]);
            assert(x@ == input[i as int]);
            assert(rest@ =~= before.subrange(1, before.len() as int));
            assert forall|k: int| 0 <= k < rest@.len() implies #[trigger] rest@[k]@ == input[i + 1 + k] by {
                assert(rest@[k] == before[k + 1]);
                assert(before.map_values(|b: Bucket| b@)[k + 1] == input.subrange(i as int, n as int)[k + 1]);
            }
            assert(rest@.map_values(|b: Bucket| b@) =~= input.subrange(i + 1, n as int));
        }
        let mut j: usize = 0;
        while j < out.len() && !bucket_precedes(&x, &out[j], order, schema)
            invariant
                j <= out@.len(),
                sorted == out@.map_values(|b: Bucket| b@),
                x@ == input[i as int],
                i < n,
                orderable(x@, schema.width()),
                reducers == schema.reducers(),
                forall|k: int| 0 <= k < out@.len() ==> orderable(#[trigger] out@[k]@, schema.width()),
                insert_pos(sorted, x@, order, reducers, j as int) == insert_pos(
                    sorted,
                    x@,
                    order,
                    reducers,
                    0,
                ),
            decreases out@.len() - j,
        {
            j = j + 1;
        }
        out.insert(j, x);
        proof {
            let upto = input.subrange(0, i + 1);
            assert(upto.drop_last() =~= input.subrange(0, i as int));
            assert(upto.last() == x@);
            assert(out@.map_values(|b: Bucket| b@) =~= sorted.insert(j as int, x@));
        }
        i = i + 1;
    }
    proof {
        assert(input.subrange(0, n as int) =~= input);
        lemma_sorted_in_order(input, order, reducers);
    }
    out
}

/// How a query result is cut down: a count capped at `MAX_COUNT`, a page of
/// `limit` buckets, or both (the page is taken from within the counted head).
#[derive(Clone, Copy, Debug, PartialEq, Eq, Structural)]
pub struct Pagination {
    pub count: Option<usize>,
    pub limit: Option<usize>,
    pub page: Option<usize>,
}

pub open spec fn min_of(a: int, b: int) -> int {
    if a <= b {
        a
    } else {
        b
    }
}

/// Whether a page size or a page number was given.
pub open spec fn page_mode(p: Pagination) -> bool {
    p.limit is Some || p.page is Some
}

/// How many leading buckets remain after the count cap, out of `n`.
pub open spec fn head_len(n: int, p: Pagination) -> int {
    match p.count {
        Some(c) => min_of(n, min_of(c as int, MAX_COUNT as int)),
        None => if page_mode(p) {
            n
        } else {
            min_of(n, DEFAULT_PAGE_SIZE as int)
        },
    }
}

pub open spec fn page_size(p: Pagination) -> int {
    match p.limit {
        Some(l) => l as int,
        None => DEFAULT_PAGE_SIZE as int,
    }
}

/// The page number, where anything below one counts as the first page.
pub open spec fn page_number(p: Pagination) -> int {
    match p.page {
        Some(n) => if n >= 1 {
            n as int
        } else {
            1
        },
        None => 1,
    }
}

/// The bounds `[lo, hi)` of the buckets kept out of `n`.
pub open spec fn window(n: int, p: Pagination) -> (int, int) {
    let h = head_len(n, p);
    if page_mode(p) {
        let lo = min_of((page_number(p) - 1) * page_size(p), h);
        (lo, min_of(lo + page_size(p), h))
    } else {
        (0, h)
    }
}

/// The buckets of `s` that the pagination keeps.
pub open spec fn paginate_spec<T>(s: Seq<T>, p: Pagination) -> Seq<T> {
    let (lo, hi) = window(s.len() as int, p);
    s.subrange(lo, hi)
}

/// Computes the window `[lo, hi)` kept out of `n` buckets.
pub fn page_window(n: usize, p: Pagination) -> (r: (usize, usize))
    ensures
        r.0 == window(n as int, p).0,
        r.1 == window(n as int, p).1,
        r.0 <= r.1 <= n,
{
    let paged = p.limit.is_some() || p.page.is_some();
    let h: usize = match p.count {
        Some(c) => {
            let capped = if c <= MAX_COUNT {
                c
            } else {
                MAX_COUNT
            };
            if n <= capped {
                n
            } else {
                capped
            }
        },
        None => if paged {
            n
        } else if n <= DEFAULT_PAGE_SIZE {
            n
        } else {
            DEFAULT_PAGE_SIZE
        },
    };
    if !paged {
        return (0, h);
    }
    let size: usize = match p.limit {
        Some(l) => l,
        None => DEFAULT_PAGE_SIZE,
    };
    let number: usize = match p.page {
        Some(k) => if k >= 1 {
            k
        } else {
            1
        },
        None => 1,
    };
    let a: u128 = number as u128 - 1;
    let b: u128 = size as u128;
    proof {
        assert(a * b <= u64::MAX * u64::MAX) by (nonlinear_arith)
            requires
                a <= u64::MAX,
                b <= u64::MAX,
        ;
    }
    let skip: u128 = a * b;
    let lo: usize = if skip <= h as u128 {
        skip as usize
    } else {
        h
    };
    let end: u128 = lo as u128 + size as u128;
    let hi: usize = if end <= h as u128 {
        end as usize
    } else {
        h
    };
    proof {
        assert(skip == (page_number(p) - 1) * page_size(p));
    }
    (lo, hi)
}

/// Keeps the buckets inside the pagination's window.
pub fn paginate<T>(items: Vec<T>, p: Pagination) -> (r: Vec<T>)
    ensures
        r@ == paginate_spec(items@, p),
{
    let (lo, hi) = page_window(items.len(), p);
    let mut items = items;
    let mut tail = items.split_off(lo);
    tail.truncate(hi - lo);
    proof {
        assert(tail@ =~= items@.subrange(0, 0) + tail@);
    }
    tail
}

/// Page `page` of size `limit`, with no count cap.
pub open spec fn page_of(limit: usize, page: usize) -> Pagination {
    Pagination { count: None, limit: Some(limit), page: Some(page) }
}

/// Pages `1..=k` of size `limit` of `s`, one after another.
pub open spec fn pages_upto<T>(s: Seq<T>, limit: usize, k: nat) -> Seq<T>
    decreases k,
{
    if k == 0 {
        Seq::empty()
    } else {
        pages_upto(s, limit, (k - 1) as nat) + paginate_spec(s, page_of(limit, k as usize))
    }
}

/// The first `k` pages of size `limit`, read in turn, are the first
/// `min(k * limit, n)` items, with no gap and no repeat.
pub proof fn lemma_pages_prefix<T>(s: Seq<T>, limit: usize, k: nat)
    requires
        limit > 0,
        k <= usize::MAX,
    ensures
        pages_upto(s, limit, k) == s.subrange(0, min_of(k * limit, s.len() as int)),
    decreases k,
{
    if k == 0 {
        assert(pages_upto(s, limit, k) =~= s.subrange(0, 0));
    } else {
        let n = s.len() as int;
        lemma_pages_prefix(s, limit, (k - 1) as nat);
        let a = (k - 1) * limit;
        assert(k * limit == a + limit) by (nonlinear_arith)
            requires
                a == (k - 1) * limit,
        ;
        assert(a >= 0) by (nonlinear_arith)
            requires
                a == (k - 1) * limit,
                k >= 1,
        ;
        let p = page_of(limit, k as usize);
        assert(page_number(p) == k);
        assert(window(n, p).0 == min_of(a, n));
        assert(window(n, p).1 == min_of(k * limit, n));
        assert(pages_upto(s, limit, k) =~= s.subrange(0, min_of(k * limit, n)));
    }
}

/// Every item that pages `1..=k` hold, once `k * limit` reaches `n`, is all of `s`.
pub proof fn lemma_pages_cover<T>(s: Seq<T>, limit: usize, k: nat)
    requires
        limit > 0,
        k <= usize::MAX,
        k * limit >= s.len(),
    ensures
        pages_upto(s, limit, k) == s,
{
    lemma_pages_prefix(s, limit, k);
    assert(s.subrange(0, s.len() as int) =~= s);
}

proof fn lemma_insert_pos_bounds(
    s: Seq<BucketModel>,
    x: BucketModel,
    order: SortOrder,
    reducers: Seq<Reducer>,
    i: int,
)
    requires
        0 <= i,
    ensures
        0 <= insert_pos(s, x, order, reducers, i) <= s.len(),
        i <= s.len() ==> i <= insert_pos(s, x, order, reducers, i),
        forall|k: int|
            i <= k < insert_pos(s, x, order, reducers, i) ==> !precedes(x, #[trigger] s[k], order, reducers),
        insert_pos(s, x, order, reducers, i) < s.len() ==> precedes(
            x,
            s[insert_pos(s, x, order, reducers, i)],
            order,
            reducers,
        ),
    decreases s.len() - i,
{
    if i < s.len() && !precedes(x, s[i], order, reducers) {
        lemma_insert_pos_bounds(s, x, order, reducers, i + 1);
    }
}

/// Sorting puts the buckets in the requested order.
pub proof fn lemma_sorted_in_order(s: Seq<BucketModel>, order: SortOrder, reducers: Seq<Reducer>)
    ensures
        in_order(sorted_spec(s, order, reducers), order, reducers),
    decreases s.len(),
{
    if s.len() > 0 {
        let init = s.drop_last();
        lemma_sorted_in_order(init, order, reducers);
        lemma_sorted_members(init, order, reducers);
        let t = sorted_spec(init, order, reducers);
        let x = s.last();
        let pos = insert_pos(t, x, order, reducers, 0);
        lemma_insert_pos_bounds(t, x, order, reducers, 0);
        let r = t.insert(pos, x);
        assert forall|a: int, b: int| 0 <= a < b < r.len() implies !precedes(
            r[b],
            r[a],
            order,
            reducers,
        ) by {
            if b < pos {
                assert(r[a] == t[a] && r[b] == t[b]);
            } else if b == pos {
                assert(r[a] == t[a]);
            } else if a == pos {
                assert(r[b] == t[b - 1]);
                if pos < b - 1 {
                    assert(!precedes(t[b - 1], t[pos], order, reducers));
                }
            } else if a < pos {
                assert(r[a] == t[a] && r[b] == t[b - 1]);
            } else {
                assert(r[a] == t[a - 1] && r[b] == t[b - 1]);
            }
        }
    }
}

/// Sorting keeps the same buckets: as many, and each one drawn from the input.
pub proof fn lemma_sorted_members(s: Seq<BucketModel>, order: SortOrder, reducers: Seq<Reducer>)
    ensures
        sorted_spec(s, order, reducers).len() == s.len(),
        forall|k: int|
            0 <= k < s.len() ==> s.contains(#[trigger] sorted_spec(s, order, reducers)[k]),
    decreases s.len(),
{
    if s.len() > 0 {
        let init = s.drop_last();
        lemma_sorted_members(init, order, reducers);
        let t = sorted_spec(init, order, reducers);
        let pos = insert_pos(t, s.last(), order, reducers, 0);
        lemma_insert_pos_bounds(t, s.last(), order, reducers, 0);
        let r = t.insert(pos, s.last());
        assert forall|k: int| 0 <= k < s.len() implies s.contains(#[trigger] r[k]) by {
            if k < pos {
                assert(r[k] == t[k]);
                assert(init.contains(t[k]));
                let m = choose|m: int| 0 <= m < init.len() && init[m] == t[k];
                assert(s[m] == t[k]);
            } else if k == pos {
                assert(s[s.len() - 1] == r[k]);
            } else {
                assert(r[k] == t[k - 1]);
                assert(init.contains(t[k - 1]));
                let m = choose|m: int| 0 <= m < init.len() && init[m] == t[k - 1];
                assert(s[m] == t[k - 1]);
            }
        }
    }
}

/// Sorting drops no bucket: every input bucket stands in the output.
pub proof fn lemma_sorted_keeps_all(s: Seq<BucketModel>, order: SortOrder, reducers: Seq<Reducer>)
    ensures
        forall|k: int| 0 <= k < s.len() ==> sorted_spec(s, order, reducers).contains(#[trigger] s[k]),
    decreases s.len(),
{
    if s.len() > 0 {
        let init = s.drop_last();
        lemma_sorted_keeps_all(init, order, reducers);
        lemma_sorted_members(init, order, reducers);
        let t = sorted_spec(init, order, reducers);
        let pos = insert_pos(t, s.last(), order, reducers, 0);
        lemma_insert_pos_bounds(t, s.last(), order, reducers, 0);
        let r = t.insert(pos, s.last());
        assert forall|k: int| 0 <= k < s.len() implies r.contains(#[trigger] s[k]) by {
            if k == s.len() - 1 {
                assert(r[pos] == s[k]);
            } else {
                assert(init[k] == s[k]);
                assert(t.contains(init[k]));
                let m = choose|m: int| 0 <= m < t.len() && t[m] == init[k];
                if m < pos {
                    assert(r[m] == t[m]);
                } else {
                    assert(r[m + 1] == t[m]);
                }
            }
        }
    }
}

/// The total of field `j` over a sequence of buckets.
pub open spec fn field_total(gs: Seq<BucketModel>, j: int) -> int
    decreases gs.len(),
{
    if gs.len() == 0 {
        0
    } else {
        field_total(gs.drop_last(), j) + gs.last().totals[j]
    }
}

proof fn lemma_field_total_insert(s: Seq<BucketModel>, i: int, x: BucketModel, j: int)
    requires
        0 <= i <= s.len(),
    ensures
        field_total(s.insert(i, x), j) == field_total(s, j) + x.totals[j],
    decreases s.len(),
{
    let r = s.insert(i, x);
    if i == s.len() {
        assert(r.drop_last() =~= s);
    } else {
        let init = s.drop_last();
        lemma_field_total_insert(init, i, x, j);
        assert(r.drop_last() =~= init.insert(i, x));
        assert(r.last() == s.last());
    }
}

/// Sorting changes no field total.
pub proof fn lemma_sorted_total(s: Seq<BucketModel>, order: SortOrder, reducers: Seq<Reducer>, j: int)
    ensures
        field_total(sorted_spec(s, order, reducers), j) == field_total(s, j),
    decreases s.len(),
{
    if s.len() > 0 {
        let init = s.drop_last();
        lemma_sorted_total(init, order, reducers, j);
        lemma_sorted_members(init, order, reducers);
        let t = sorted_spec(init, order, reducers);
        lemma_insert_pos_bounds(t, s.last(), order, reducers, 0);
        lemma_field_total_insert(t, insert_pos(t, s.last(), order, reducers, 0), s.last(), j);
    }
}

} // verus!
