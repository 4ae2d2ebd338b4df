//! The series store of one dataset: appending records, resolving the ingestion
//! checkpoint, and answering bucketed queries.
use vstd::prelude::*;

use crate::bucket::{
    group_samples, group_spec, lemma_group_conserves, lemma_group_on_boundary,
    lemma_group_partitions, on_boundary, samples_total, Bucket, BucketModel,
};
use crate::filter::{lemma_greater_eq_admits_greater, CompareOp, Filter};
use crate::interval::{align_down_spec, alignable, lemma_align_down_monotone};
use crate::order::{
    field_total, lemma_pages_cover, lemma_sorted_keeps_all, lemma_sorted_members,
    lemma_sorted_total, min_of, orderable, page_number, page_of, pages_upto, paginate,
    paginate_spec, reduced, sort_buckets, sorted_spec, window, Pagination, SortOrder,
};
use crate::schema::{Reducer, Schema};
use crate::store::{
    all_positions, countable, keeps, lemma_kept_total_grows, lemma_kept_widens,
    lemma_selected_valid, records_fit, sample_at, select_positions, selected, valid_position, Position, Record, Selection,
};

verus! {

/// How far back ingestion starts when a dataset holds nothing yet: 180 days.
pub const LOOKBACK_SECONDS: i64 = 15552000;

/// Why a record was not stored.
#[derive(Clone, Copy, Debug, PartialEq, Eq, Structural)]
pub enum StoreError {
    /// A sample does not hold exactly one value per schema field.
    WidthMismatch,
}

/// Whether every sample of the record holds one value per field.
pub open spec fn record_fits(rec: Record, width: nat) -> bool {
    forall|j: int| 0 <= j < rec.samples@.len() ==> (#[trigger] rec.samples@[j]).values@.len() == width
}

/// The greatest declared end time among the records, if there are any.
pub open spec fn latest_end(records: Seq<Record>) -> Option<i64>
    decreases records.len(),
{
    if records.len() == 0 {
        None
    } else {
        let e = records.last().end_time;
        match latest_end(records.drop_last()) {
            None => Some(e),
            Some(m) => Some(if m >= e { m } else { e }),
        }
    }
}

/// Where the next ingestion starts: the latest stored end time, else
/// `now - LOOKBACK_SECONDS` (held at `i64::MIN` if it would go below).
pub open spec fn checkpoint_of(last: Option<i64>, now: i64) -> i64 {
    match last {
        Some(t) => t,
        None => if now >= i64::MIN + LOOKBACK_SECONDS {
            (now - LOOKBACK_SECONDS) as i64
        } else {
            i64::MIN
        },
    }
}

/// The checkpoint of a dataset holding `records`.
pub open spec fn checkpoint_spec(records: Seq<Record>, now: i64) -> i64 {
    checkpoint_of(latest_end(records), now)
}

/// Resolves the checkpoint from the latest stored end time, if any, and the time now.
pub fn resolve_checkpoint(last: Option<i64>, now: i64) -> (r: i64)
    ensures
        r == checkpoint_of(last, now),
{
    match last {
        Some(t) => t,
        None => if now >= i64::MIN + LOOKBACK_SECONDS {
            now - LOOKBACK_SECONDS
        } else {
            i64::MIN
        },
    }
}

/// Relies on `std::time::SystemTime::now` and chrono's
/// `From<SystemTime> for DateTime<Utc>` with `DateTime::timestamp`: the current
/// time in whole seconds since the Unix epoch, negative for a clock set before
/// 1970. Nothing is promised of its value.
#[verifier::external_body]
fn unix_now() -> (r: i64) {
    chrono::DateTime::<chrono::Utc>::from(std::time::SystemTime::now()).timestamp()
}

/// Resolves the checkpoint against the clock. When a latest end time is known
/// it is the checkpoint; otherwise the checkpoint lies a lookback window
/// before whatever time the clock gave.
pub fn resolve_checkpoint_now(last: Option<i64>) -> (r: i64)
    ensures
        last is Some ==> r == last->0,
        exists|now: i64| r == #[trigger] checkpoint_of(last, now),
{
    let now = unix_now();
    resolve_checkpoint(last, now)
}

/// A bucketed query: bucket width, the samples read, their order and the page.
pub struct BucketQuery {
    pub seconds: i64,
    pub selection: Selection,
    pub order: SortOrder,
    pub pagination: Pagination,
}

/// The buckets of a query before pagination, in the requested order.
pub open spec fn ordered_spec(records: Seq<Record>, reducers: Seq<Reducer>, q: BucketQuery) -> Seq<
    BucketModel,
> {
    sorted_spec(
        group_spec(records, selected(records, q.selection), q.seconds as int),
        q.order,
        reducers,
    )
}

/// The buckets a query returns.
pub open spec fn query_spec(records: Seq<Record>, reducers: Seq<Reducer>, q: BucketQuery) -> Seq<
    BucketModel,
> {
    paginate_spec(ordered_spec(records, reducers, q), q.pagination)
}

/// The page of buckets, with the start of the first (else the query's `from`)
/// and the end of the last (else the query's `to`).
pub struct QueryResult {
    pub buckets: Vec<Bucket>,
    pub start_time: i64,
    pub end_time: i64,
}

/// The records and samples of one dataset.
pub struct SeriesStore {
    pub schema: Schema,
    pub records: Vec<Record>,
}

impl SeriesStore {
    /// Every stored sample holds one value per schema field.
    pub open spec fn wf(&self) -> bool {
        records_fit(self.records@, self.schema.width())
    }

    /// An empty store for the given schema.
    pub fn new(schema: Schema) -> (r: SeriesStore)
        ensures
            r.wf(),
            r.schema == schema,
            r.records@.len() == 0,
    {
        SeriesStore { schema, records: Vec::new() }
    }

    /// Appends one ingested record as it is, with no merging of overlapping ranges.
    /// A record whose samples do not match the schema is refused.
    pub fn insert_batch(&mut self, record: Record) -> (r: Result<(), StoreError>)
        requires
            old(self).wf(),
        ensures
            final(self).wf(),
            final(self).schema == old(self).schema,
            r is Ok <==> record_fits(record, old(self).schema.width()),
            r is Ok ==> final(self).records@ == old(self).records@.push(record),
            r is Err ==> final(self).records@ == old(self).records@,
    {
        let width = self.schema.len();
        let mut j: usize = 0;
        while j < record.samples.len()
            invariant
                j <= record.samples@.len(),
                width == self.schema.width(),
                self.wf(),
                forall|k: int| 0 <= k < j ==> (#[trigger] record.samples@[k]).values@.len() == width,
            decreases record.samples@.len() - j,
        {
            if record.samples[j].values.len() != width {
                return Err(StoreError::WidthMismatch);
            }
            j = j + 1;
        }
        let ghost before = self.records@;
        self.records.push(record);
        proof {
            assert forall|r: int, k: int|
                0 <= r < self.records@.len() && 0 <= k < self.records@[r].samples@.len() implies (
            #[trigger] self.records@[r].samples@[k]).values@.len() == self.schema.width() by {
                if r < before.len() {
                    assert(self.records@[r] == before[r]);
                }
            }
        }
        Ok(())
    }

    /// The latest end time that any stored record declares.
    pub fn last_checkpoint(&self) -> (r: Option<i64>)
        ensures
            r == latest_end(self.records@),
    {
        let mut best: Option<i64> = None;
        let mut i: usize = 0;
        while i < self.records.len()
            invariant
                i <= self.records@.len(),
                best == latest_end(self.records@.subrange(0, i as int)),
            decreases self.records@.len() - i,
        {
            let e = self.records[i].end_time;
            proof {
                let upto = self.records@.subrange(0, i + 1);
                assert(upto.drop_last() =~= self.records@.subrange(0, i as int));
                assert(upto.last() == self.records@[i as int]);
            }
            best = match best {
                None => Some(e),
                Some(m) => Some(if m >= e { m } else { e }),
            };
            i = i + 1;
        }
        proof {
            assert(self.records@.subrange(0, self.records@.len() as int) =~= self.records@);
        }
        best
    }

    /// Where the next ingestion of this dataset starts, given the time now.
    pub fn resolve_checkpoint(&self, now: i64) -> (r: i64)
        ensures
            r == checkpoint_spec(self.records@, now),
    {
        resolve_checkpoint(self.last_checkpoint(), now)
    }

    /// Answers a bucketed query: selects samples, groups them by aligned start
    /// time, orders the buckets, and keeps the requested page.
    pub fn query_buckets(&self, q: &BucketQuery) -> (r: QueryResult)
        requires
            self.wf(),
            q.seconds > 0,
            alignable(q.selection.from as int, q.seconds as int),
        ensures
            r.buckets@.map_values(|b: Bucket| b@) == query_spec(
                self.records@,
                self.schema.reducers(),
                *q,
            ),
            r.start_time == if r.buckets@.len() > 0 {
                r.buckets@[0].start_time
            } else {
                q.selection.from
            },
            r.end_time == if r.buckets@.len() > 0 {
                r.buckets@.last().end_time
            } else {
                q.selection.to
            },
            forall|k: int|
                0 <= k < r.buckets@.len() ==> orderable(
                    #[trigger] r.buckets@[k]@,
                    self.schema.width(),
                ),
    {
        let ps = select_positions(&self.records, &q.selection);
        let width = self.schema.len();
        proof {
            assert forall|k: int| 0 <= k < ps@.len() implies (#[trigger] sample_at(
                self.records@,
                ps@[k],
            )).values@.len() == width by {
                assert(valid_position(self.records@, ps@[k]));
                assert(self.records@[ps@[k].0 as int].samples@[ps@[k].1 as int].values@.len() == width);
            }
            assert forall|k: int| 0 <= k < ps@.len() implies alignable(
                (#[trigger] sample_at(self.records@, ps@[k])).start_time as int,
                q.seconds as int,
            ) by {
                assert(keeps(self.records@, q.selection, ps@[k]));
                lemma_align_down_monotone(
                    q.selection.from as int,
                    sample_at(self.records@, ps@[k]).start_time as int,
                    q.seconds as int,
                );
            }
        }
        let groups = group_samples(&self.records, &ps, q.seconds, width);
        let sorted = sort_buckets(groups, q.order, &self.schema);
        let ghost sorted_view = sorted@;
        let page = paginate(sorted, q.pagination);
        proof {
            let (lo, hi) = window(sorted_view.len() as int, q.pagination);
            assert(page@.map_values(|b: Bucket| b@) =~= sorted_view.map_values(|b: Bucket| b@).subrange(lo, hi));
            assert forall|k: int| 0 <= k < page@.len() implies orderable(
                #[trigger] page@[k]@,
                self.schema.width(),
            ) by {
                assert(page@[k] == sorted_view[lo + k]);
            }
        }
        let n = page.len();
        let start_time = if n > 0 {
            page[0].start_time
        } else {
            q.selection.from
        };
        let end_time = if n > 0 {
            page[n - 1].end_time
        } else {
            q.selection.to
        };
        QueryResult { buckets: page, start_time, end_time }
    }
}

/// The same query with another pagination.
pub open spec fn with_pagination(q: BucketQuery, p: Pagination) -> BucketQuery {
    BucketQuery { seconds: q.seconds, selection: q.selection, order: q.order, pagination: p }
}

/// Pages `1..=k` of size `limit` of a query, one after another.
pub open spec fn query_pages(
    records: Seq<Record>,
    reducers: Seq<Reducer>,
    q: BucketQuery,
    limit: usize,
    k: nat,
) -> Seq<BucketModel>
    decreases k,
{
    if k == 0 {
        Seq::empty()
    } else {
        query_pages(records, reducers, q, limit, (k - 1) as nat) + query_spec(
            records,
            reducers,
            with_pagination(q, page_of(limit, k as usize)),
        )
    }
}

proof fn lemma_query_pages_are_pages(
    records: Seq<Record>,
    reducers: Seq<Reducer>,
    q: BucketQuery,
    limit: usize,
    k: nat,
)
    ensures
        query_pages(records, reducers, q, limit, k) == pages_upto(
            ordered_spec(records, reducers, q),
            limit,
            k,
        ),
    decreases k,
{
    if k > 0 {
        lemma_query_pages_are_pages(records, reducers, q, limit, (k - 1) as nat);
        let p = page_of(limit, k as usize);
        assert(ordered_spec(records, reducers, with_pagination(q, p)) == ordered_spec(
            records,
            reducers,
            q,
        ));
    }
}

/// Reading the pages of size `limit` in turn, from the first until they cover
/// the result, gives the whole ordered result of the query with no gap and no
/// bucket twice.
pub proof fn lemma_pages_reassemble(
    records: Seq<Record>,
    reducers: Seq<Reducer>,
    q: BucketQuery,
    limit: usize,
    k: usize,
)
    requires
        limit > 0,
        k * limit >= ordered_spec(records, reducers, q).len(),
    ensures
        query_pages(records, reducers, q, limit, k as nat) == ordered_spec(records, reducers, q),
{
    lemma_query_pages_are_pages(records, reducers, q, limit, k as nat);
    lemma_pages_cover(ordered_spec(records, reducers, q), limit, k as nat);
}

/// Every bucket a query returns starts on a multiple of its width, and the
/// least start time of its samples lies inside its window.
pub proof fn lemma_buckets_on_boundary(records: Seq<Record>, reducers: Seq<Reducer>, q: BucketQuery)
    requires
        q.seconds > 0,
    ensures
        forall|k: int|
            0 <= k < query_spec(records, reducers, q).len() ==> on_boundary(
                #[trigger] query_spec(records, reducers, q)[k],
                q.seconds as int,
            ),
{
    let g = group_spec(records, selected(records, q.selection), q.seconds as int);
    lemma_group_on_boundary(records, selected(records, q.selection), q.seconds as int);
    lemma_sorted_members(g, q.order, reducers);
    let o = ordered_spec(records, reducers, q);
    let (lo, hi) = window(o.len() as int, q.pagination);
    assert forall|k: int| 0 <= k < query_spec(records, reducers, q).len() implies on_boundary(
        #[trigger] query_spec(records, reducers, q)[k],
        q.seconds as int,
    ) by {
        assert(query_spec(records, reducers, q)[k] == o[lo + k]);
        assert(g.contains(o[lo + k]));
    }
}

/// Summed fields are conserved: before pagination, the totals of field `j`
/// over a query's buckets add up to the sum of field `j` over the samples the
/// query reads, and for a summed field each bucket reports its total.
pub proof fn lemma_sums_conserved(
    records: Seq<Record>,
    reducers: Seq<Reducer>,
    q: BucketQuery,
    j: int,
)
    requires
        countable(records),
        records_fit(records, reducers.len()),
        0 <= j < reducers.len(),
    ensures
        field_total(ordered_spec(records, reducers, q), j) == samples_total(
            records,
            selected(records, q.selection),
            j,
        ),
        reducers[j] == Reducer::Sum ==> forall|k: int|
            0 <= k < ordered_spec(records, reducers, q).len() ==> reduced(
                #[trigger] ordered_spec(records, reducers, q)[k],
                reducers[j],
                j,
            ) == ordered_spec(records, reducers, q)[k].totals[j],
{
    let ps = selected(records, q.selection);
    lemma_selected_valid(records, q.selection);
    assert forall|k: int| 0 <= k < ps.len() implies (#[trigger] sample_at(records, ps[k])).values@.len()
        == reducers.len() by {
        assert(valid_position(records, ps[k]));
    }
    lemma_group_conserves(records, ps, q.seconds as int, reducers.len(), j);
    lemma_sorted_total(group_spec(records, ps, q.seconds as int), q.order, reducers, j);
}

/// Resolving the checkpoint twice with no write in between gives the same
/// value; once a dataset holds a record, the clock no longer matters.
pub proof fn lemma_checkpoint_stable(records: Seq<Record>, now1: i64, now2: i64)
    ensures
        now1 == now2 ==> checkpoint_spec(records, now1) == checkpoint_spec(records, now2),
        records.len() > 0 ==> checkpoint_spec(records, now1) == checkpoint_spec(records, now2),
        records.len() > 0 ==> checkpoint_spec(records, now1) == latest_end(records)->0,
{
    if records.len() > 0 {
        assert(latest_end(records) is Some);
    }
}

/// After a record is stored, the next checkpoint is the later of the previous
/// latest end and the record's own end, so the next fetch leaves no gap.
pub proof fn lemma_checkpoint_after_insert(records: Seq<Record>, rec: Record, now: i64)
    ensures
        checkpoint_spec(records.push(rec), now) == match latest_end(records) {
            Some(m) => if m >= rec.end_time {
                m
            } else {
                rec.end_time
            },
            None => rec.end_time,
        },
{
    assert(records.push(rec).drop_last() =~= records);
}

/// Replacing a `>` filter by the same `>=` filter keeps every sample the query
/// read before: the samples selected with `>` are among those selected with `>=`.
pub proof fn lemma_greater_eq_selects_more(
    records: Seq<Record>,
    from: i64,
    to: i64,
    gt: Selection,
    ge: Selection,
    before: Seq<Filter>,
    after: Seq<Filter>,
    field: usize,
    value: u64,
)
    requires
        gt.from == from && gt.to == to,
        ge.from == from && ge.to == to,
        gt.filters@ == before + seq![Filter { field, op: CompareOp::Greater, value }] + after,
        ge.filters@ == before + seq![Filter { field, op: CompareOp::GreaterEq, value }] + after,
    ensures
        forall|p: Position| selected(records, gt).contains(p) ==> selected(records, ge).contains(p),
{
    assert forall|p: Position| keeps(records, gt, p) implies keeps(records, ge, p) by {
        lemma_greater_eq_admits_greater(before, after, field, value, sample_at(records, p).values@);
    }
    lemma_kept_widens(records, gt, ge, all_positions(records));
}

/// Replacing a `>` filter by the same `>=` filter loses no bucket: before
/// pagination, every bucket boundary of the `>` query is a bucket boundary of
/// the `>=` query, and the total of every field over all buckets is at least
/// as large.
pub proof fn lemma_greater_eq_keeps_buckets(
    records: Seq<Record>,
    reducers: Seq<Reducer>,
    q_gt: BucketQuery,
    q_ge: BucketQuery,
    before: Seq<Filter>,
    after: Seq<Filter>,
    field: usize,
    value: u64,
    j: int,
)
    requires
        q_gt.seconds == q_ge.seconds,
        q_gt.selection.from == q_ge.selection.from,
        q_gt.selection.to == q_ge.selection.to,
        q_gt.order == q_ge.order,
        q_gt.selection.filters@ == before + seq![Filter { field, op: CompareOp::Greater, value }]
            + after,
        q_ge.selection.filters@ == before + seq![Filter { field, op: CompareOp::GreaterEq, value }]
            + after,
        countable(records),
        records_fit(records, reducers.len()),
        0 <= j < reducers.len(),
    ensures
        forall|k: int|
            0 <= k < ordered_spec(records, reducers, q_gt).len() ==> exists|i: int|
                0 <= i < ordered_spec(records, reducers, q_ge).len() && ordered_spec(
                    records,
                    reducers,
                    q_ge,
                )[i].bucket_start == (#[trigger] ordered_spec(
                    records,
                    reducers,
                    q_gt,
                )[k]).bucket_start,
        field_total(ordered_spec(records, reducers, q_gt), j) <= field_total(
            ordered_spec(records, reducers, q_ge),
            j,
        ),
{
    let s = q_gt.seconds as int;
    let ps_gt = selected(records, q_gt.selection);
    let ps_ge = selected(records, q_ge.selection);
    let g_gt = group_spec(records, ps_gt, s);
    let g_ge = group_spec(records, ps_ge, s);
    let o_gt = ordered_spec(records, reducers, q_gt);
    let o_ge = ordered_spec(records, reducers, q_ge);
    assert forall|p: Position| keeps(records, q_gt.selection, p) implies keeps(
        records,
        q_ge.selection,
        p,
    ) by {
        lemma_greater_eq_admits_greater(before, after, field, value, sample_at(records, p).values@);
    }
    lemma_greater_eq_selects_more(
        records,
        q_gt.selection.from,
        q_gt.selection.to,
        q_gt.selection,
        q_ge.selection,
        before,
        after,
        field,
        value,
    );
    lemma_group_partitions(records, ps_gt, s);
    lemma_group_partitions(records, ps_ge, s);
    lemma_sorted_members(g_gt, q_gt.order, reducers);
    lemma_sorted_keeps_all(g_ge, q_ge.order, reducers);
    assert forall|k: int| 0 <= k < o_gt.len() implies exists|i: int|
        0 <= i < o_ge.len() && o_ge[i].bucket_start == (#[trigger] o_gt[k]).bucket_start by {
        assert(g_gt.contains(o_gt[k]));
        let a = choose|a: int| 0 <= a < g_gt.len() && g_gt[a] == o_gt[k];
        assert(g_gt[a].count >= 1);
        let m = g_gt[a].members[0];
        assert(ps_gt.contains(m));
        assert(ps_ge.contains(m));
        let x = choose|x: int| 0 <= x < ps_ge.len() && ps_ge[x] == m;
        assert(sample_at(records, ps_ge[x]) == sample_at(records, m));
        let c = choose|c: int|
            0 <= c < g_ge.len() && g_ge[c].bucket_start == align_down_spec(
                sample_at(records, ps_ge[x]).start_time as int,
                s,
            );
        assert(o_ge.contains(g_ge[c]));
        let i = choose|i: int| 0 <= i < o_ge.len() && o_ge[i] == g_ge[c];
        assert(o_ge[i].bucket_start == o_gt[k].bucket_start);
    }
    lemma_sums_conserved(records, reducers, q_gt, j);
    lemma_sums_conserved(records, reducers, q_ge, j);
    lemma_kept_total_grows(records, q_gt.selection, q_ge.selection, all_positions(records), j);
}

/// Page `p` (counting from one) of size `limit` holds the buckets of the ordered
/// result from `(p - 1) * limit` up to `p * limit`, cut at its end; a page past
/// the end is empty.
pub proof fn lemma_page_contents(
    records: Seq<Record>,
    reducers: Seq<Reducer>,
    q: BucketQuery,
    limit: usize,
    p: usize,
)
    requires
        p >= 1,
    ensures
        query_spec(records, reducers, with_pagination(q, page_of(limit, p))) == ordered_spec(
            records,
            reducers,
            q,
        ).subrange(
            min_of((p - 1) * limit, ordered_spec(records, reducers, q).len() as int),
            min_of(
                min_of((p - 1) * limit, ordered_spec(records, reducers, q).len() as int) + limit,
                ordered_spec(records, reducers, q).len() as int,
            ),
        ),
        (p - 1) * limit >= ordered_spec(records, reducers, q).len() ==> query_spec(
            records,
            reducers,
            with_pagination(q, page_of(limit, p)),
        ).len() == 0,
{
    let n = ordered_spec(records, reducers, q).len() as int;
    assert(ordered_spec(records, reducers, with_pagination(q, page_of(limit, p))) == ordered_spec(
        records,
        reducers,
        q,
    ));
    assert(page_number(page_of(limit, p)) == p);
}

} // verus!
