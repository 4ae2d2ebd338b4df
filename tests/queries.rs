use midgard_vault::api::{DepthHistoryMetaResponse, DepthHistoryParams, RunePoolHistoryParams};
use midgard_vault::engine::{BucketQuery, SeriesStore, StoreError};
use midgard_vault::filter::{parse_filters, CompareOp, Filter};
use midgard_vault::order::{Pagination, SortField, SortOrder};
use midgard_vault::schema::{Reducer, Schema};
use midgard_vault::store::{Record, Sample, Selection};

fn sample(start: i64, end: i64, values: Vec<u64>) -> Sample {
    Sample { start_time: start, end_time: end, values }
}

fn store_with(schema: Schema, samples: Vec<Sample>) -> SeriesStore {
    let mut store = SeriesStore::new(schema);
    let start = samples.iter().map(|s| s.start_time).min().unwrap_or(0);
    let end = samples.iter().map(|s| s.end_time).max().unwrap_or(0);
    store
        .insert_batch(Record { start_time: start, end_time: end, samples })
        .unwrap();
    store
}

fn plain_query(seconds: i64, from: i64, to: i64, filters: Vec<Filter>, pagination: Pagination) -> BucketQuery {
    BucketQuery {
        seconds,
        selection: Selection { from, to, filters },
        order: SortOrder { field: SortField::BucketStart, descending: false },
        pagination,
    }
}

fn all_pages() -> Pagination {
    Pagination { count: Some(400), limit: None, page: None }
}

#[test]
fn store_query_on_empty_dataset_returns_given_bounds() {
    let store = SeriesStore::new(Schema::depth());
    let q = plain_query(3600, 1000, 2000, vec![], Pagination { count: None, limit: None, page: None });
    let r = store.query_buckets(&q);
    assert!(r.buckets.is_empty());
    assert_eq!(r.start_time, 1000);
    assert_eq!(r.end_time, 2000);
    let meta = DepthHistoryMetaResponse::of(&r);
    assert_eq!(meta, DepthHistoryMetaResponse { start_time: 1000, end_time: 2000 });
}

#[test]
fn empty_dataset_through_params_uses_aligned_from() {
    let store = SeriesStore::new(Schema::depth());
    let params = DepthHistoryParams {
        interval: Some("hour".to_string()),
        count: None,
        limit: None,
        page: None,
        from: Some(1000),
        to: Some(2000),
        sort_by: None,
        order: None,
        filters: None,
    };
    let r = store.query_buckets(&params.query(&store.schema));
    assert!(r.buckets.is_empty());
    assert_eq!(r.start_time, 0);
    assert_eq!(r.end_time, 2000);
}

#[test]
fn two_hours_fold_into_one_day_bucket() {
    let store = store_with(
        Schema::rune_pool(),
        vec![sample(0, 3600, vec![3, 100]), sample(3600, 7200, vec![4, 250])],
    );
    let q = plain_query(86400, 0, i64::MAX, vec![], all_pages());
    let r = store.query_buckets(&q);
    assert_eq!(r.buckets.len(), 1);
    let b = &r.buckets[0];
    assert_eq!(b.bucket_start, 0);
    assert_eq!(b.start_time, 0);
    assert_eq!(b.end_time, 7200);
    assert_eq!(b.count, 2);
    assert_eq!(b.values(&store.schema), vec![7, 350]);
    assert_eq!(b.members, vec![(0, 0), (0, 1)]);
    assert_eq!(r.start_time, 0);
    assert_eq!(r.end_time, 7200);
}

#[test]
fn filter_keeps_only_matching_sample() {
    let schema = Schema::depth();
    let mut v1 = vec![0u64; 10];
    v1[0] = 500;
    let mut v2 = vec![0u64; 10];
    v2[0] = 1500;
    v2[1] = 9;
    let store = store_with(schema, vec![sample(0, 3600, v1), sample(3600, 7200, v2)]);
    let filters = parse_filters(&store.schema, &vec!["assetDepth>1000".to_string()]);
    let r = store.query_buckets(&plain_query(86400, 0, i64::MAX, filters, all_pages()));
    assert_eq!(r.buckets.len(), 1);
    let vals = r.buckets[0].values(&store.schema);
    assert_eq!(vals[0], 1500);
    assert_eq!(vals[1], 9);
    assert_eq!(r.buckets[0].count, 1);
    assert_eq!(r.buckets[0].start_time, 3600);
}

fn hourly_store(n: i64) -> SeriesStore {
    let samples = (0..n)
        .map(|i| sample(i * 3600 + 60, i * 3600 + 3660, vec![(i as u64) + 1, 10 * (i as u64)]))
        .collect();
    store_with(Schema::rune_pool(), samples)
}

#[test]
fn buckets_start_on_interval_boundaries() {
    let store = hourly_store(30);
    for secs in [300i64, 3600, 86400] {
        let r = store.query_buckets(&plain_query(secs, 0, i64::MAX, vec![], all_pages()));
        assert!(!r.buckets.is_empty());
        for b in &r.buckets {
            assert_eq!(b.bucket_start % secs, 0);
            assert!(b.bucket_start <= b.start_time && b.start_time < b.bucket_start + secs);
        }
    }
}

#[test]
fn summed_fields_are_conserved() {
    let store = hourly_store(30);
    let r = store.query_buckets(&plain_query(86400, 0, i64::MAX, vec![], all_pages()));
    assert_eq!(r.buckets.len(), 2);
    let total_count: u128 = r.buckets.iter().map(|b| b.values(&store.schema)[0]).sum();
    let total_units: u128 = r.buckets.iter().map(|b| b.values(&store.schema)[1]).sum();
    assert_eq!(total_count, (1..=30).sum::<u128>());
    assert_eq!(total_units, (0..30).map(|i| 10 * i).sum::<u128>());
}

#[test]
fn greater_eq_filter_selects_superset_of_greater() {
    let store = hourly_store(10);
    let ge = parse_filters(&store.schema, &vec!["count>=5".to_string()]);
    let gt = parse_filters(&store.schema, &vec!["count>5".to_string()]);
    assert_eq!(ge, vec![Filter { field: 0, op: CompareOp::GreaterEq, value: 5 }]);
    let r_ge = store.query_buckets(&plain_query(3600, 0, i64::MAX, ge, all_pages()));
    let r_gt = store.query_buckets(&plain_query(3600, 0, i64::MAX, gt, all_pages()));
    assert_eq!(r_ge.buckets.len(), 6);
    assert_eq!(r_gt.buckets.len(), 5);
    for b in &r_gt.buckets {
        assert!(r_ge.buckets.iter().any(|c| c.bucket_start == b.bucket_start));
    }
}

#[test]
fn pages_concatenate_to_the_full_result() {
    let store = hourly_store(7);
    let full = store.query_buckets(&plain_query(3600, 0, i64::MAX, vec![], all_pages()));
    assert_eq!(full.buckets.len(), 7);
    let mut seen = Vec::new();
    for page in 1..=4usize {
        let p = Pagination { count: None, limit: Some(2), page: Some(page) };
        let r = store.query_buckets(&plain_query(3600, 0, i64::MAX, vec![], p));
        assert!(r.buckets.len() <= 2);
        seen.extend(r.buckets.iter().map(|b| b.bucket_start));
    }
    let want: Vec<i64> = full.buckets.iter().map(|b| b.bucket_start).collect();
    assert_eq!(seen, want);
}

#[test]
fn count_mode_defaults_to_ten_and_caps_at_four_hundred() {
    let store = hourly_store(450);
    let none = Pagination { count: None, limit: None, page: None };
    assert_eq!(store.query_buckets(&plain_query(3600, 0, i64::MAX, vec![], none)).buckets.len(), 10);
    let big = Pagination { count: Some(1000), limit: None, page: None };
    assert_eq!(store.query_buckets(&plain_query(3600, 0, i64::MAX, vec![], big)).buckets.len(), 400);
    let both = Pagination { count: Some(5), limit: Some(3), page: Some(2) };
    let r = store.query_buckets(&plain_query(3600, 0, i64::MAX, vec![], both));
    assert_eq!(r.buckets.iter().map(|b| b.bucket_start).collect::<Vec<_>>(), vec![3 * 3600, 4 * 3600]);
}

#[test]
fn page_zero_counts_as_first_page() {
    let store = hourly_store(5);
    let p = Pagination { count: None, limit: Some(2), page: Some(0) };
    let r = store.query_buckets(&plain_query(3600, 0, i64::MAX, vec![], p));
    assert_eq!(r.buckets.iter().map(|b| b.bucket_start).collect::<Vec<_>>(), vec![0, 3600]);
    let far = Pagination { count: None, limit: Some(2), page: Some(100) };
    let r = store.query_buckets(&plain_query(3600, 0, i64::MAX, vec![], far));
    assert!(r.buckets.is_empty());
    assert_eq!(r.start_time, 0);
    assert_eq!(r.end_time, i64::MAX);
}

#[test]
fn sort_by_field_descending() {
    let store = hourly_store(4);
    let mut q = plain_query(3600, 0, i64::MAX, vec![], all_pages());
    q.order = SortOrder { field: SortField::Field(1), descending: true };
    let r = store.query_buckets(&q);
    let units: Vec<u128> = r.buckets.iter().map(|b| b.values(&store.schema)[1]).collect();
    assert_eq!(units, vec![30, 20, 10, 0]);
    assert_eq!(r.start_time, 3 * 3600 + 60);
    assert_eq!(r.end_time, 3660);
}

#[test]
fn averages_round_down() {
    let depth = Schema::depth();
    assert_eq!(depth.reducer(6), Reducer::Average);
    let mut a = vec![0u64; 10];
    a[6] = 3;
    let mut b = vec![0u64; 10];
    b[6] = 4;
    let store = store_with(depth, vec![sample(0, 3600, a), sample(3600, 7200, b)]);
    let r = store.query_buckets(&plain_query(86400, 0, i64::MAX, vec![], all_pages()));
    assert_eq!(r.buckets[0].values(&store.schema)[6], 3);
}

#[test]
fn samples_outside_range_are_skipped() {
    let store = hourly_store(5);
    let r = store.query_buckets(&plain_query(3600, 3600, 3 * 3600 + 3660, vec![], all_pages()));
    let starts: Vec<i64> = r.buckets.iter().map(|b| b.bucket_start).collect();
    assert_eq!(starts, vec![3600, 7200, 10800, 14400]);
}

#[test]
fn sample_ending_after_to_is_still_read() {
    let mut store = SeriesStore::new(Schema::rune_pool());
    let rec = Record { start_time: 0, end_time: 7200, samples: vec![sample(3600, 7200, vec![2, 5])] };
    store.insert_batch(rec).unwrap();
    let r = store.query_buckets(&plain_query(3600, 0, 5000, vec![], all_pages()));
    assert_eq!(r.buckets.len(), 1);
    assert_eq!(r.buckets[0].bucket_start, 3600);
    assert_eq!(r.buckets[0].values(&store.schema), vec![2, 5]);
    assert_eq!(r.end_time, 7200);
}

#[test]
fn records_outside_range_are_skipped() {
    let mut store = SeriesStore::new(Schema::rune_pool());
    let rec = Record { start_time: 10_000, end_time: 20_000, samples: vec![sample(10_800, 14_400, vec![1, 1])] };
    store.insert_batch(rec).unwrap();
    let r = store.query_buckets(&plain_query(3600, 0, 5000, vec![], all_pages()));
    assert!(r.buckets.is_empty());
}

#[test]
fn params_become_query() {
    let schema = Schema::rune_pool();
    let params = RunePoolHistoryParams {
        interval: Some("day".to_string()),
        count: None,
        from: Some(90_000),
        to: None,
        page: Some(2),
        limit: Some(5),
        sort: Some("units".to_string()),
        order: Some("desc".to_string()),
        filters: Some("count>3".to_string()),
    };
    let q = params.query(&schema);
    assert_eq!(q.seconds, 86400);
    assert_eq!(q.selection.from, 86400);
    assert_eq!(q.selection.to, i64::MAX);
    assert_eq!(q.selection.filters, vec![Filter { field: 0, op: CompareOp::Greater, value: 3 }]);
    assert_eq!(q.order, SortOrder { field: SortField::Field(1), descending: true });
    assert_eq!(q.pagination, Pagination { count: None, limit: Some(5), page: Some(2) });
}

#[test]
fn unknown_sort_field_falls_back_to_bucket_start() {
    let params = DepthHistoryParams {
        interval: None,
        count: None,
        limit: None,
        page: None,
        from: None,
        to: None,
        sort_by: Some("nope".to_string()),
        order: Some("asc".to_string()),
        filters: Some(vec!["assetDepth<3".to_string(), "junk".to_string()]),
    };
    let q = params.query(&Schema::depth());
    assert_eq!(q.seconds, 3600);
    assert_eq!(q.selection.from, 0);
    assert_eq!(q.order, SortOrder { field: SortField::BucketStart, descending: false });
    assert_eq!(q.selection.filters.len(), 1);
    let p2 = DepthHistoryParams { sort_by: Some("totalUnits".to_string()), ..params };
    assert_eq!(p2.query(&Schema::depth()).order.field, SortField::Field(5));
}

#[test]
fn insert_refuses_wrong_width() {
    let mut store = SeriesStore::new(Schema::rune_pool());
    let bad = Record { start_time: 0, end_time: 3600, samples: vec![sample(0, 3600, vec![1])] };
    assert_eq!(store.insert_batch(bad), Err(StoreError::WidthMismatch));
    assert!(store.records.is_empty());
    let good = Record { start_time: 0, end_time: 3600, samples: vec![sample(0, 3600, vec![1, 2])] };
    assert_eq!(store.insert_batch(good), Ok(()));
    assert_eq!(store.records.len(), 1);
}

#[test]
fn schemas_have_expected_widths() {
    assert_eq!(Schema::depth().len(), 10);
    assert_eq!(Schema::earnings().len(), 7);
    assert_eq!(Schema::swaps().len(), 19);
    assert_eq!(Schema::rune_pool().len(), 2);
}
