//! Request parameters of the four history endpoints and how they become
//! bucketed queries, and the metadata of their responses.
use vstd::prelude::*;

use crate::engine::{BucketQuery, QueryResult};
use crate::filter::{parse_filters, parse_filters_spec};
use crate::interval::{
    align_down, align_down_spec, interval_or_default, interval_or_default_spec,
    lemma_align_down_monotone,
};
use crate::order::{Pagination, SortField, SortOrder};
use crate::schema::{position_of, Schema};
use crate::store::Selection;
use crate::text::{chars_of, text_eq};

verus! {

pub open spec fn opt_view(s: Option<String>) -> Option<Seq<char>> {
    match s {
        Some(t) => Some(t@),
        None => None,
    }
}

pub open spec fn max_i(a: int, b: int) -> int {
    if a >= b {
        a
    } else {
        b
    }
}

/// The lower bound a query reads from: the given `from` rounded down to a
/// bucket boundary, or 0. A `from` so low that its boundary would fall below
/// `i64::MIN` is first raised to `i64::MIN + seconds - 1`, which has the
/// earliest boundary an `i64` holds.
pub open spec fn query_from(from: Option<i64>, seconds: int) -> int {
    match from {
        Some(f) => align_down_spec(max_i(f as int, i64::MIN + seconds - 1), seconds),
        None => 0,
    }
}

/// The field a sort name picks: `startTime`, `endTime`, `intervalStart`, or the
/// reported name of a schema field; no name, or any other, picks the boundary.
pub open spec fn sort_field_spec(outputs: Seq<Seq<char>>, name: Option<Seq<char>>) -> SortField {
    match name {
        None => SortField::BucketStart,
        Some(n) => if n == "startTime"@ {
            SortField::StartTime
        } else if n == "endTime"@ {
            SortField::EndTime
        } else if n == "intervalStart"@ {
            SortField::BucketStart
        } else {
            match position_of(outputs, n) {
                Some(j) => SortField::Field(j as usize),
                None => SortField::BucketStart,
            }
        },
    }
}

/// Whether the order asked for is descending: only the word `desc` asks so.
pub open spec fn descending_spec(order: Option<Seq<char>>) -> bool {
    order == Some("desc"@)
}

/// Whether `q` is the query that these parameters ask of a dataset with `schema`.
pub open spec fn query_matches(
    q: BucketQuery,
    schema: Schema,
    interval: Option<Seq<char>>,
    from: Option<i64>,
    to: Option<i64>,
    filters: Seq<Seq<char>>,
    sort: Option<Seq<char>>,
    order: Option<Seq<char>>,
    pagination: Pagination,
) -> bool {
    &&& q.seconds == interval_or_default_spec(interval)
    &&& q.selection.from == query_from(from, q.seconds as int)
    &&& q.selection.to == match to {
        Some(t) => t,
        None => i64::MAX,
    }
    &&& q.selection.filters@ == parse_filters_spec(schema, filters)
    &&& q.order == SortOrder {
        field: sort_field_spec(schema.outputs(), sort),
        descending: descending_spec(order),
    }
    &&& q.pagination == pagination
}

/// Two requested `from` values in the same bucket give the same lower bound,
/// so repeated queries see the same bucket boundaries.
pub proof fn lemma_same_bucket_same_from(f1: i64, f2: i64, seconds: int)
    requires
        seconds > 0,
        align_down_spec(f1 as int, seconds) == align_down_spec(f2 as int, seconds),
    ensures
        query_from(Some(f1), seconds) == query_from(Some(f2), seconds),
{
    let low = i64::MIN + seconds - 1;
    if f1 < low {
        lemma_align_down_monotone(f1 as int, low, seconds);
        if f2 >= low {
            lemma_align_down_monotone(low, f2 as int, seconds);
        }
    }
    if f2 < low {
        lemma_align_down_monotone(f2 as int, low, seconds);
        if f1 >= low {
            lemma_align_down_monotone(low, f1 as int, seconds);
        }
    }
}

/// Rounds a requested `from` down to a bucket boundary.
pub fn align_from(from: Option<i64>, seconds: i64) -> (r: i64)
    requires
        seconds > 0,
    ensures
        r == query_from(from, seconds as int),
        crate::interval::alignable(r as int, seconds as int),
{
    match from {
        None => {
            proof {
                assert(align_down_spec(0, seconds as int) == 0);
            }
            0
        },
        Some(f) => {
            let low = i64::MIN + (seconds - 1);
            let t = if f >= low {
                f
            } else {
                low
            };
            proof {
                crate::interval::lemma_align_down_idempotent(t as int, seconds as int);
            }
            align_down(t, seconds)
        },
    }
}

fn sort_field(schema: &Schema, name: &Option<String>) -> (r: SortField)
    ensures
        r == sort_field_spec(schema.outputs(), opt_view(*name)),
{
    match name {
        None => SortField::BucketStart,
        Some(n) => {
            if text_eq(n.as_str(), "startTime") {
                SortField::StartTime
            } else if text_eq(n.as_str(), "endTime") {
                SortField::EndTime
            } else if text_eq(n.as_str(), "intervalStart") {
                SortField::BucketStart
            } else {
                let cs = chars_of(n.as_str());
                proof {
                    assert(cs@.subrange(0, cs@.len() as int) =~= cs@);
                }
                match schema.find_output(&cs, 0, cs.len()) {
                    Some(j) => SortField::Field(j),
                    None => SortField::BucketStart,
                }
            }
        },
    }
}

fn is_descending(order: &Option<String>) -> (r: bool)
    ensures
        r == descending_spec(opt_view(*order)),
{
    match order {
        Some(o) => text_eq(o.as_str(), "desc"),
        None => false,
    }
}

/// Builds the query that a history request asks of a dataset with `schema`.
pub fn build_query(
    schema: &Schema,
    interval: &Option<String>,
    from: Option<i64>,
    to: Option<i64>,
    filters: &Vec<String>,
    sort: &Option<String>,
    order: &Option<String>,
    pagination: Pagination,
) -> (q: BucketQuery)
    ensures
        query_matches(
            q,
            *schema,
            opt_view(*interval),
            from,
            to,
            filters@.map_values(|t: String| t@),
            opt_view(*sort),
            opt_view(*order),
            pagination,
        ),
        q.seconds > 0,
        crate::interval::alignable(q.selection.from as int, q.seconds as int),
{
    let seconds = interval_or_default(interval);
    let from_aligned = align_from(from, seconds);
    let to_bound = match to {
        Some(t) => t,
        None => i64::MAX,
    };
    let parsed = parse_filters(schema, filters);
    let sort_order = SortOrder { field: sort_field(schema, sort), descending: is_descending(order) };
    BucketQuery {
        seconds,
        selection: Selection { from: from_aligned, to: to_bound, filters: parsed },
        order: sort_order,
        pagination,
    }
}

/// Query parameters of the depth history endpoint.
pub struct DepthHistoryParams {
    pub interval: Option<String>,
    pub count: Option<usize>,
    pub limit: Option<usize>,
    pub page: Option<usize>,
    pub from: Option<i64>,
    pub to: Option<i64>,
    pub sort_by: Option<String>,
    pub order: Option<String>,
    pub filters: Option<Vec<String>>,
}

/// Query parameters of the earnings history endpoint.
pub struct EarningsHistoryParams {
    pub interval: Option<String>,
    pub count: Option<usize>,
    pub from: Option<i64>,
    pub to: Option<i64>,
    pub limit: Option<usize>,
    pub page: Option<usize>,
    pub sort_by: Option<String>,
    pub order: Option<String>,
    pub filters: Option<Vec<String>>,
}

/// Query parameters of the swaps history endpoint.
pub struct SwapsHistoryParams {
    pub interval: Option<String>,
    pub count: Option<usize>,
    pub from: Option<i64>,
    pub to: Option<i64>,
    pub page: Option<usize>,
    pub limit: Option<usize>,
    pub sort: Option<String>,
    pub order: Option<String>,
    pub filters: Option<Vec<String>>,
}

/// Query parameters of the rune pool history endpoint; `filters` holds one
/// compact filter.
pub struct RunePoolHistoryParams {
    pub interval: Option<String>,
    pub count: Option<usize>,
    pub from: Option<i64>,
    pub to: Option<i64>,
    pub page: Option<usize>,
    pub limit: Option<usize>,
    pub sort: Option<String>,
    pub order: Option<String>,
    pub filters: Option<String>,
}

pub open spec fn filter_texts(filters: Option<Vec<String>>) -> Seq<Seq<char>> {
    match filters {
        Some(v) => v@.map_values(|t: String| t@),
        None => Seq::empty(),
    }
}

pub open spec fn single_filter(filter: Option<String>) -> Seq<Seq<char>> {
    match filter {
        Some(f) => seq![f@],
        None => Seq::empty(),
    }
}

fn owned_filters(filters: &Option<Vec<String>>) -> (r: Vec<String>)
    ensures
        r@.map_values(|t: String| t@) == filter_texts(*filters),
{
    let mut out: Vec<String> = Vec::new();
    match filters {
        Some(v) => {
            let mut i: usize = 0;
            while i < v.len()
                invariant
                    i <= v@.len(),
                    out@.map_values(|t: String| t@) == v@.map_values(|t: String| t@).subrange(
                        0,
                        i as int,
                    ),
                decreases v@.len() - i,
            {
                let ghost prev = out@;
                let c = v[i].clone();
                out.push(c);
                proof {
                    assert(out@.map_values(|t: String| t@) =~= prev.map_values(|t: String| t@).push(
                        v@[i as int]@,
                    ));
                    assert(out@.map_values(|t: String| t@) =~= v@.map_values(|t: String| t@).subrange(
                        0,
                        i + 1,
                    ));
                }
                i = i + 1;
            }
            proof {
                assert(v@.map_values(|t: String| t@).subrange(0, v@.len() as int) =~= v@.map_values(
                    |t: String| t@,
                ));
            }
        },
        None => {
            proof {
                assert(out@.map_values(|t: String| t@) =~= Seq::<Seq<char>>::empty());
            }
        },
    }
    out
}

impl DepthHistoryParams {
    /// The query these parameters ask of the depth history.
    pub fn query(&self, schema: &Schema) -> (q: BucketQuery)
        ensures
            query_matches(
                q,
                *schema,
                opt_view(self.interval),
                self.from,
                self.to,
                filter_texts(self.filters),
                opt_view(self.sort_by),
                opt_view(self.order),
                Pagination { count: self.count, limit: self.limit, page: self.page },
            ),
            q.seconds > 0,
            crate::interval::alignable(q.selection.from as int, q.seconds as int),
    {
        let filters = owned_filters(&self.filters);
        build_query(
            schema,
            &self.interval,
            self.from,
            self.to,
            &filters,
            &self.sort_by,
            &self.order,
            Pagination { count: self.count, limit: self.limit, page: self.page },
        )
    }
}

impl EarningsHistoryParams {
    /// The query these parameters ask of the earnings history.
    pub fn query(&self, schema: &Schema) -> (q: BucketQuery)
        ensures
            query_matches(
                q,
                *schema,
                opt_view(self.interval),
                self.from,
                self.to,
                filter_texts(self.filters),
                opt_view(self.sort_by),
                opt_view(self.order),
                Pagination { count: self.count, limit: self.limit, page: self.page },
            ),
            q.seconds > 0,
            crate::interval::alignable(q.selection.from as int, q.seconds as int),
    {
        let filters = owned_filters(&self.filters);
        build_query(
            schema,
            &self.interval,
            self.from,
            self.to,
            &filters,
            &self.sort_by,
            &self.order,
            Pagination { count: self.count, limit: self.limit, page: self.page },
        )
    }
}

impl SwapsHistoryParams {
    /// The query these parameters ask of the swaps history.
    pub fn query(&self, schema: &Schema) -> (q: BucketQuery)
        ensures
            query_matches(
                q,
                *schema,
                opt_view(self.interval),
                self.from,
                self.to,
                filter_texts(self.filters),
                opt_view(self.sort),
                opt_view(self.order),
                Pagination { count: self.count, limit: self.limit, page: self.page },
            ),
            q.seconds > 0,
            crate::interval::alignable(q.selection.from as int, q.seconds as int),
    {
        let filters = owned_filters(&self.filters);
        build_query(
            schema,
            &self.interval,
            self.from,
            self.to,
            &filters,
            &self.sort,
            &self.order,
            Pagination { count: self.count, limit: self.limit, page: self.page },
        )
    }
}

impl RunePoolHistoryParams {
    /// The query these parameters ask of the rune pool history.
    pub fn query(&self, schema: &Schema) -> (q: BucketQuery)
        ensures
            query_matches(
                q,
                *schema,
                opt_view(self.interval),
                self.from,
                self.to,
                single_filter(self.filters),
                opt_view(self.sort),
                opt_view(self.order),
                Pagination { count: self.count, limit: self.limit, page: self.page },
            ),
            q.seconds > 0,
            crate::interval::alignable(q.selection.from as int, q.seconds as int),
    {
        let mut filters: Vec<String> = Vec::new();
        match &self.filters {
            Some(f) => filters.push(f.clone()),
            None => {},
        }
        proof {
            assert(filters@.map_values(|t: String| t@) =~= single_filter(self.filters));
        }
        build_query(
            schema,
            &self.interval,
            self.from,
            self.to,
            &filters,
            &self.sort,
            &self.order,
            Pagination { count: self.count, limit: self.limit, page: self.page },
        )
    }
}

/// The metadata of a depth history response.
#[derive(Clone, Copy, Debug, PartialEq, Eq, Structural)]
pub struct DepthHistoryMetaResponse {
    pub start_time: i64,
    pub end_time: i64,
}

/// The metadata of an earnings history response.
#[derive(Clone, Copy, Debug, PartialEq, Eq, Structural)]
pub struct EarningsHistoryMetaResponse {
    pub start_time: i64,
    pub end_time: i64,
}

/// The metadata of a swaps history response.
#[derive(Clone, Copy, Debug, PartialEq, Eq, Structural)]
pub struct SwapsHistoryMetaResponse {
    pub start_time: i64,
    pub end_time: i64,
}

/// The metadata of a rune pool history response.
#[derive(Clone, Copy, Debug, PartialEq, Eq, Structural)]
pub struct RunePoolHistoryMetaResponse {
    pub start_time: i64,
    pub end_time: i64,
}

impl DepthHistoryMetaResponse {
    pub fn of(r: &QueryResult) -> (m: Self)
        ensures
            m.start_time == r.start_time,
            m.end_time == r.end_time,
    {
        DepthHistoryMetaResponse { start_time: r.start_time, end_time: r.end_time }
    }
}

impl EarningsHistoryMetaResponse {
    pub fn of(r: &QueryResult) -> (m: Self)
        ensures
            m.start_time == r.start_time,
            m.end_time == r.end_time,
    {
        EarningsHistoryMetaResponse { start_time: r.start_time, end_time: r.end_time }
    }
}

impl SwapsHistoryMetaResponse {
    pub fn of(r: &QueryResult) -> (m: Self)
        ensures
            m.start_time == r.start_time,
            m.end_time == r.end_time,
    {
        SwapsHistoryMetaResponse { start_time: r.start_time, end_time: r.end_time }
    }
}

impl RunePoolHistoryMetaResponse {
    pub fn of(r: &QueryResult) -> (m: Self)
        ensures
            m.start_time == r.start_time,
            m.end_time == r.end_time,
    {
        RunePoolHistoryMetaResponse { start_time: r.start_time, end_time: r.end_time }
    }
}

} // verus!
