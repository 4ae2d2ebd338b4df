//! Grouping selected samples into aligned time buckets.
use vstd::prelude::*;

use crate::interval::{align_down, align_down_spec, alignable, lemma_align_down_idempotent};
use crate::order::field_total;
use crate::store::{sample_at, valid_position, Position, Record, Sample};

verus! {

/// One bucket of a query result: its aligned boundary, the least start and the
/// greatest end of its samples, how many samples it holds, the per-field totals
/// of their values, and where those samples stand in the store.
pub struct Bucket {
    pub bucket_start: i64,
    pub start_time: i64,
    pub end_time: i64,
    pub count: u64,
    pub totals: Vec<u128>,
    pub members: Vec<Position>,
}

/// The mathematical content of a bucket.
pub struct BucketModel {
    pub bucket_start: int,
    pub start_time: int,
    pub end_time: int,
    pub count: nat,
    pub totals: Seq<int>,
    pub members: Seq<Position>,
}

impl View for Bucket {
    type V = BucketModel;

    open spec fn view(&self) -> BucketModel {
        BucketModel {
            bucket_start: self.bucket_start as int,
            start_time: self.start_time as int,
            end_time: self.end_time as int,
            count: self.count as nat,
            totals: self.totals@.map_values(|t: u128| t as int),
            members: self.members@,
        }
    }
}

pub open spec fn min_int(a: int, b: int) -> int {
    if a <= b {
        a
    } else {
        b
    }
}

pub open spec fn max_int(a: int, b: int) -> int {
    if a >= b {
        a
    } else {
        b
    }
}

/// A bucket holding the one sample `s`, found at `p`.
pub open spec fn fresh_bucket(key: int, p: Position, s: Sample) -> BucketModel {
    BucketModel {
        bucket_start: key,
        start_time: s.start_time as int,
        end_time: s.end_time as int,
        count: 1,
        totals: s.values@.map_values(|v: u64| v as int),
        members: seq![p],
    }
}

/// The bucket `b` with the sample `s`, found at `p`, added to it.
pub open spec fn merge_sample(b: BucketModel, p: Position, s: Sample) -> BucketModel {
    BucketModel {
        bucket_start: b.bucket_start,
        start_time: min_int(b.start_time, s.start_time as int),
        end_time: max_int(b.end_time, s.end_time as int),
        count: b.count + 1,
        totals: Seq::new(b.totals.len(), |j: int| b.totals[j] + s.values@[j] as int),
        members: b.members.push(p),
    }
}

/// The index of the bucket whose boundary is `key`, if there is one.
pub open spec fn key_index(gs: Seq<BucketModel>, key: int) -> Option<int> {
    if exists|i: int| 0 <= i < gs.len() && gs[i].bucket_start == key {
        Some(choose|i: int| 0 <= i < gs.len() && gs[i].bucket_start == key)
    } else {
        None
    }
}

/// The buckets `gs` after adding the sample `s`, found at `p`: it joins the
/// bucket of its aligned start time, or opens a new one at the end.
pub open spec fn add_sample(gs: Seq<BucketModel>, p: Position, s: Sample, seconds: int) -> Seq<
    BucketModel,
> {
    let key = align_down_spec(s.start_time as int, seconds);
    match key_index(gs, key) {
        Some(i) => gs.update(i, merge_sample(gs[i], p, s)),
        None => gs.push(fresh_bucket(key, p, s)),
    }
}

/// The buckets that the samples at `ps` fall into, in order of first appearance.
pub open spec fn group_spec(records: Seq<Record>, ps: Seq<Position>, seconds: int) -> Seq<
    BucketModel,
>
    decreases ps.len(),
{
    if ps.len() == 0 {
        Seq::empty()
    } else {
        add_sample(
            group_spec(records, ps.drop_last(), seconds),
            ps.last(),
            sample_at(records, ps.last()),
            seconds,
        )
    }
}

/// Whether no two buckets share a boundary.
pub open spec fn keys_distinct(gs: Seq<BucketModel>) -> bool {
    forall|a: int, b: int|
        0 <= a < gs.len() && 0 <= b < gs.len() && a != b ==> gs[a].bucket_start
            != gs[b].bucket_start
}

/// The bounds that keep a bucket's totals within `u128`.
pub open spec fn bucket_bounded(b: BucketModel, width: nat, limit: nat) -> bool {
    &&& b.totals.len() == width
    &&& 1 <= b.count <= limit
    &&& forall|j: int| 0 <= j < width ==> 0 <= #[trigger] b.totals[j] <= b.count * u64::MAX
}

proof fn lemma_key_index_found(gs: Seq<BucketModel>, key: int, i: int)
    requires
        keys_distinct(gs),
        0 <= i < gs.len(),
        gs[i].bucket_start == key,
    ensures
        key_index(gs, key) == Some(i),
{
    let c = choose|c: int| 0 <= c < gs.len() && gs[c].bucket_start == key;
    assert(0 <= c < gs.len() && gs[c].bucket_start == key);
}

/// Adds the values of `s` to the totals of `b`.
fn add_totals(totals: &mut Vec<u128>, values: &Vec<u64>, Ghost(count): Ghost<nat>)
    requires
        old(totals)@.len() == values@.len(),
        count + 1 <= usize::MAX + 1,
        forall|j: int|
            0 <= j < old(totals)@.len() ==> #[trigger] old(totals)@[j] <= count * u64::MAX,
    ensures
        final(totals)@.len() == old(totals)@.len(),
        forall|j: int|
            0 <= j < final(totals)@.len() ==> #[trigger] final(totals)@[j] == old(totals)@[j]
                + values@[j],
        forall|j: int|
            0 <= j < final(totals)@.len() ==> #[trigger] final(totals)@[j] <= (count + 1)
                * u64::MAX,
{
    let n = totals.len();
    let mut j: usize = 0;
    while j < n
        invariant
            n == totals@.len(),
            n == old(totals)@.len(),
            n == values@.len(),
            count + 1 <= usize::MAX + 1,
            j <= n,
            forall|k: int| 0 <= k < n ==> #[trigger] old(totals)@[k] <= count * u64::MAX,
            forall|k: int| 0 <= k < j ==> #[trigger] totals@[k] == old(totals)@[k] + values@[k],
            forall|k: int| j <= k < n ==> #[trigger] totals@[k] == old(totals)@[k],
        decreases n - j,
    {
        let t = totals[j];
        let v = values[j];
        proof {
            assert(t + v <= (count + 1) * u64::MAX) by (nonlinear_arith)
                requires
                    t <= count * u64::MAX,
                    v <= u64::MAX,
            ;
            assert((count + 1) * u64::MAX <= u128::MAX) by (nonlinear_arith)
                requires
                    count + 1 <= usize::MAX + 1,
                    usize::MAX <= u64::MAX,
            ;
        }
        totals.set(j, t + v as u128);
        j = j + 1;
    }
    proof {
        assert forall|k: int| 0 <= k < n implies #[trigger] totals@[k] <= (count + 1) * u64::MAX by {
            let a = old(totals)@[k];
            let v = values@[k];
            assert(a + v <= (count + 1) * u64::MAX) by (nonlinear_arith)
                requires
                    a <= count * u64::MAX,
                    v <= u64::MAX,
            ;
        }
    }
}

/// Copies sample values into a fresh vector of totals.
fn totals_of(values: &Vec<u64>) -> (r: Vec<u128>)
    ensures
        r@.len() == values@.len(),
        forall|j: int| 0 <= j < r@.len() ==> #[trigger] r@[j] == values@[j],
{
    let mut out: Vec<u128> = Vec::new();
    let mut j: usize = 0;
    while j < values.len()
        invariant
            j <= values@.len(),
            out@.len() == j,
            forall|k: int| 0 <= k < j ==> #[trigger] out@[k] == values@[k],
        decreases values@.len() - j,
    {
        out.push(values[j] as u128);
        j = j + 1;
    }
    out
}

/// The index of the bucket whose boundary is `key`, if there is one.
fn find_bucket(gs: &Vec<Bucket>, key: i64) -> (r: Option<usize>)
    ensures
        match r {
            Some(f) => f < gs@.len() && gs@[f as int].bucket_start == key,
            None => forall|m: int| 0 <= m < gs@.len() ==> (#[trigger] gs@[m]).bucket_start != key,
        },
{
    let mut k: usize = 0;
    while k < gs.len()
        invariant
            k <= gs@.len(),
            forall|m: int| 0 <= m < k ==> (#[trigger] gs@[m]).bucket_start != key,
        decreases gs@.len() - k,
    {
        if gs[k].bucket_start == key {
            return Some(k);
        }
        k = k + 1;
    }
    None
}

/// Groups the samples at `ps` into buckets of `seconds` aligned on their start times.
pub fn group_samples(records: &Vec<Record>, ps: &Vec<Position>, seconds: i64, width: usize) -> (r:
    Vec<Bucket>)
    requires
        seconds > 0,
        forall|k: int| 0 <= k < ps@.len() ==> valid_position(records@, #[trigger] ps@[k]),
        forall|k: int|
            0 <= k < ps@.len() ==> (#[trigger] sample_at(records@, ps@[k])).values@.len()
                == width,
        forall|k: int|
            0 <= k < ps@.len() ==> alignable(
                (#[trigger] sample_at(records@, ps@[k])).start_time as int,
                seconds as int,
            ),
    ensures
        r@.map_values(|b: Bucket| b@) == group_spec(records@, ps@, seconds as int),
        keys_distinct(group_spec(records@, ps@, seconds as int)),
        forall|k: int|
            0 <= k < r@.len() ==> bucket_bounded(#[trigger] r@[k]@, width as nat, ps@.len()),
{
    let mut gs: Vec<Bucket> = Vec::new();
    let mut i: usize = 0;
    while i < ps.len()
        invariant
            seconds > 0,
            i <= ps@.len(),
            forall|k: int| 0 <= k < ps@.len() ==> valid_position(records@, #[trigger] ps@[k]),
            forall|k: int|
                0 <= k < ps@.len() ==> (#[trigger] sample_at(records@, ps@[k])).values@.len()
                    == width,
            forall|k: int|
                0 <= k < ps@.len() ==> alignable(
                    (#[trigger] sample_at(records@, ps@[k])).start_time as int,
                    seconds as int,
                ),
            gs@.map_values(|b: Bucket| b@) == group_spec(
                records@,
                ps@.subrange(0, i as int),
                seconds as int,
            ),
            keys_distinct(gs@.map_values(|b: Bucket| b@)),
            forall|k: int|
                0 <= k < gs@.len() ==> bucket_bounded(#[trigger] gs@[k]@, width as nat, i as nat),
        decreases ps@.len() - i,
    {
        let ghost before = gs@.map_values(|b: Bucket| b@);
        let p = ps[i];
        let s = &records[p.0].samples[p.1];
        proof {
            let upto = ps@.subrange(0, i + 1);
            assert(upto.drop_last() =~= ps@.subrange(0, i as int));
            assert(upto.last() == p);
            assert(*s == sample_at(records@, ps@[i as int]));
        }
        let key = align_down(s.start_time, seconds);
        let found = match find_bucket(&gs, key) {
            Some(f) => f,
            None => gs.len(),
        };
        if found < gs.len() {
            proof {
                lemma_key_index_found(before, key as int, found as int);
            }
            let mut b = gs.remove(found);
            let ghost old_b = b@;
            proof {
                assert(old_b == before[found as int]);
                assert(bucket_bounded(old_b, width as nat, i as nat));
                assert forall|j: int| 0 <= j < b.totals@.len() implies #[trigger] b.totals@[j]
                    <= b.count * u64::MAX by {
                    assert(old_b.totals[j] == b.totals@[j]);
                }
            }
            add_totals(&mut b.totals, &s.values, Ghost(b.count as nat));
            if s.start_time < b.start_time {
                b.start_time = s.start_time;
            }
            if s.end_time > b.end_time {
                b.end_time = s.end_time;
            }
            b.count = b.count + 1;
            b.members.push(p);
            proof {
                assert(b@.totals =~= merge_sample(old_b, p, *s).totals);
                assert(b@ == merge_sample(old_b, p, *s));
            }
            gs.insert(found, b);
            proof {
                let after = gs@.map_values(|b: Bucket| b@);
                assert(after =~= before.update(found as int, merge_sample(old_b, p, *s)));
                assert forall|m: int| 0 <= m < gs@.len() implies bucket_bounded(
                    #[trigger] gs@[m]@,
                    width as nat,
                    (i + 1) as nat,
                ) by {
                    if m != found {
                        assert(gs@[m]@ == before[m]);
                        assert(bucket_bounded(before[m], width as nat, i as nat));
                        assert forall|j: int| 0 <= j < width implies 0 <= #[trigger] before[m].totals[j]
                            <= before[m].count * u64::MAX by {}
                    }
                }
            }
        } else {
            let b = Bucket {
                bucket_start: key,
                start_time: s.start_time,
                end_time: s.end_time,
                count: 1,
                totals: totals_of(&s.values),
                members: vec![p],
            };
            proof {
                assert(b@.totals =~= fresh_bucket(key as int, p, *s).totals);
                assert(b@.members =~= seq![p]);
                assert(b@ == fresh_bucket(key as int, p, *s));
                assert forall|m: int| 0 <= m < before.len() implies before[m].bucket_start != key by {
                    assert(before[m] == gs@[m]@);
                }
                assert(key_index(before, key as int) is None);
            }
            gs.push(b);
            proof {
                let after = gs@.map_values(|b: Bucket| b@);
                assert(after =~= before.push(fresh_bucket(key as int, p, *s)));
                assert forall|m: int| 0 <= m < gs@.len() implies bucket_bounded(
                    #[trigger] gs@[m]@,
                    width as nat,
                    (i + 1) as nat,
                ) by {
                    if m < before.len() {
                        assert(gs@[m]@ == before[m]);
                        assert(bucket_bounded(before[m], width as nat, i as nat));
                        assert forall|j: int| 0 <= j < width implies 0 <= #[trigger] before[m].totals[j]
                            <= before[m].count * u64::MAX by {}
                    } else {
                        assert forall|j: int| 0 <= j < width implies 0 <= #[trigger] gs@[m]@.totals[j]
                            <= gs@[m]@.count * u64::MAX by {}
                    }
                }
            }
        }
        i = i + 1;
    }
    proof {
        assert(ps@.subrange(0, ps@.len() as int) =~= ps@);
    }
    gs
}

/// The sum of field `j` over the samples at `ps`.
pub open spec fn samples_total(records: Seq<Record>, ps: Seq<Position>, j: int) -> int
    decreases ps.len(),
{
    if ps.len() == 0 {
        0
    } else {
        samples_total(records, ps.drop_last(), j) + sample_at(records, ps.last()).values@[j] as int
    }
}

proof fn lemma_field_total_update(gs: Seq<BucketModel>, i: int, b: BucketModel, j: int)
    requires
        0 <= i < gs.len(),
    ensures
        field_total(gs.update(i, b), j) == field_total(gs, j) - gs[i].totals[j] + b.totals[j],
    decreases gs.len(),
{
    let r = gs.update(i, b);
    if i == gs.len() - 1 {
        assert(r.drop_last() =~= gs.drop_last());
    } else {
        lemma_field_total_update(gs.drop_last(), i, b, j);
        assert(r.drop_last() =~= gs.drop_last().update(i, b));
    }
}

/// Grouping loses and adds nothing: the bucket totals of field `j` add up to
/// the sum of field `j` over the grouped samples, and every bucket keeps one
/// total per field.
pub proof fn lemma_group_conserves(
    records: Seq<Record>,
    ps: Seq<Position>,
    seconds: int,
    width: nat,
    j: int,
)
    requires
        0 <= j < width,
        forall|k: int|
            0 <= k < ps.len() ==> (#[trigger] sample_at(records, ps[k])).values@.len() == width,
    ensures
        field_total(group_spec(records, ps, seconds), j) == samples_total(records, ps, j),
        forall|k: int|
            0 <= k < group_spec(records, ps, seconds).len() ==> (#[trigger] group_spec(
                records,
                ps,
                seconds,
            )[k]).totals.len() == width,
    decreases ps.len(),
{
    if ps.len() > 0 {
        let init = ps.drop_last();
        assert forall|k: int| 0 <= k < init.len() implies (#[trigger] sample_at(
            records,
            init[k],
        )).values@.len() == width by {
            assert(init[k] == ps[k]);
        }
        lemma_group_conserves(records, init, seconds, width, j);
        let g = group_spec(records, init, seconds);
        let p = ps.last();
        let smp = sample_at(records, p);
        assert(smp.values@.len() == width) by {
            assert(sample_at(records, ps[ps.len() - 1]).values@.len() == width);
        }
        let key = align_down_spec(smp.start_time as int, seconds);
        match key_index(g, key) {
            Some(i) => {
                let m = merge_sample(g[i], p, smp);
                lemma_field_total_update(g, i, m, j);
                let r = g.update(i, m);
                assert forall|k: int| 0 <= k < r.len() implies (#[trigger] r[k]).totals.len()
                    == width by {
                    if k != i {
                        assert(r[k] == g[k]);
                    }
                }
            },
            None => {
                let r = g.push(fresh_bucket(key, p, smp));
                assert(r.drop_last() =~= g);
                assert forall|k: int| 0 <= k < r.len() implies (#[trigger] r[k]).totals.len()
                    == width by {
                    if k < g.len() {
                        assert(r[k] == g[k]);
                    }
                }
            },
        }
    }
}

/// Whether a bucket lies on a boundary of `seconds` and its samples' least
/// start time falls inside its window.
pub open spec fn on_boundary(b: BucketModel, seconds: int) -> bool {
    &&& b.bucket_start % seconds == 0
    &&& b.bucket_start <= b.start_time < b.bucket_start + seconds
}

/// Every bucket that grouping makes starts on a boundary of `seconds`, and the
/// least start time of its samples lies within its window.
pub proof fn lemma_group_on_boundary(records: Seq<Record>, ps: Seq<Position>, seconds: int)
    requires
        seconds > 0,
    ensures
        forall|k: int|
            0 <= k < group_spec(records, ps, seconds).len() ==> on_boundary(
                #[trigger] group_spec(records, ps, seconds)[k],
                seconds,
            ),
    decreases ps.len(),
{
    if ps.len() > 0 {
        let init = ps.drop_last();
        lemma_group_on_boundary(records, init, seconds);
        let g = group_spec(records, init, seconds);
        let p = ps.last();
        let smp = sample_at(records, p);
        let key = align_down_spec(smp.start_time as int, seconds);
        lemma_align_down_idempotent(smp.start_time as int, seconds);
        match key_index(g, key) {
            Some(i) => {
                let r = g.update(i, merge_sample(g[i], p, smp));
                assert(g[i].bucket_start == key);
                assert(on_boundary(g[i], seconds));
                assert forall|k: int| 0 <= k < r.len() implies on_boundary(#[trigger] r[k], seconds) by {
                    if k != i {
                        assert(r[k] == g[k]);
                    }
                }
            },
            None => {
                let r = g.push(fresh_bucket(key, p, smp));
                assert forall|k: int| 0 <= k < r.len() implies on_boundary(#[trigger] r[k], seconds) by {
                    if k < g.len() {
                        assert(r[k] == g[k]);
                    }
                }
            },
        }
    }
}

/// Grouping partitions the samples by boundary: no two buckets share a
/// boundary, every grouped sample has the bucket of its aligned start time,
/// and each bucket's members are grouped samples of its boundary, as many as
/// its count.
pub proof fn lemma_group_partitions(records: Seq<Record>, ps: Seq<Position>, seconds: int)
    ensures
        keys_distinct(group_spec(records, ps, seconds)),
        forall|k: int|
            0 <= k < ps.len() ==> exists|i: int|
                0 <= i < group_spec(records, ps, seconds).len() && group_spec(
                    records,
                    ps,
                    seconds,
                )[i].bucket_start == align_down_spec(
                    (#[trigger] sample_at(records, ps[k])).start_time as int,
                    seconds,
                ),
        forall|i: int|
            0 <= i < group_spec(records, ps, seconds).len() ==> (#[trigger] group_spec(
                records,
                ps,
                seconds,
            )[i]).count == group_spec(records, ps, seconds)[i].members.len() && group_spec(
                records,
                ps,
                seconds,
            )[i].count >= 1,
        forall|i: int, m: int|
            0 <= i < group_spec(records, ps, seconds).len() && 0 <= m < group_spec(
                records,
                ps,
                seconds,
            )[i].members.len() ==> ps.contains(
                #[trigger] group_spec(records, ps, seconds)[i].members[m],
            ) && align_down_spec(
                sample_at(records, group_spec(records, ps, seconds)[i].members[m]).start_time as int,
                seconds,
            ) == group_spec(records, ps, seconds)[i].bucket_start,
    decreases ps.len(),
{
    if ps.len() > 0 {
        let init = ps.drop_last();
        lemma_group_partitions(records, init, seconds);
        let g = group_spec(records, init, seconds);
        let p = ps.last();
        let smp = sample_at(records, p);
        let key = align_down_spec(smp.start_time as int, seconds);
        let r = group_spec(records, ps, seconds);
        assert forall|x: Position| init.contains(x) implies ps.contains(x) by {
            let j = choose|j: int| 0 <= j < init.len() && init[j] == x;
            assert(ps[j] == x);
        }
        assert(ps[ps.len() - 1] == p);
        match key_index(g, key) {
            Some(i) => {
                assert(0 <= i < g.len() && g[i].bucket_start == key);
                assert(r == g.update(i, merge_sample(g[i], p, smp)));
                assert forall|k: int| 0 <= k < ps.len() implies exists|b: int|
                    0 <= b < r.len() && r[b].bucket_start == align_down_spec(
                        (#[trigger] sample_at(records, ps[k])).start_time as int,
                        seconds,
                    ) by {
                    if k < init.len() {
                        assert(ps[k] == init[k]);
                        let b = choose|b: int|
                            0 <= b < g.len() && g[b].bucket_start == align_down_spec(
                                sample_at(records, init[k]).start_time as int,
                                seconds,
                            );
                        assert(r[b].bucket_start == g[b].bucket_start);
                    } else {
                        assert(r[i].bucket_start == key);
                    }
                }
                assert forall|a: int, m: int|
                    0 <= a < r.len() && 0 <= m < r[a].members.len() implies ps.contains(
                        #[trigger] r[a].members[m],
                    ) && align_down_spec(sample_at(records, r[a].members[m]).start_time as int, seconds)
                        == r[a].bucket_start by {
                    if a != i || m < g[a].members.len() {
                        assert(r[a].members[m] == g[a].members[m]);
                        assert(init.contains(g[a].members[m]));
                    } else {
                        assert(r[a].members[m] == p);
                    }
                }
            },
            None => {
                let f = fresh_bucket(key, p, smp);
                assert(r == g.push(f));
                assert forall|k: int| 0 <= k < ps.len() implies exists|b: int|
                    0 <= b < r.len() && r[b].bucket_start == align_down_spec(
                        (#[trigger] sample_at(records, ps[k])).start_time as int,
                        seconds,
                    ) by {
                    if k < init.len() {
                        assert(ps[k] == init[k]);
                        let b = choose|b: int|
                            0 <= b < g.len() && g[b].bucket_start == align_down_spec(
                                sample_at(records, init[k]).start_time as int,
                                seconds,
                            );
                        assert(r[b] == g[b]);
                    } else {
                        assert(r[g.len() as int].bucket_start == key);
                    }
                }
                assert forall|a: int, m: int|
                    0 <= a < r.len() && 0 <= m < r[a].members.len() implies ps.contains(
                        #[trigger] r[a].members[m],
                    ) && align_down_spec(sample_at(records, r[a].members[m]).start_time as int, seconds)
                        == r[a].bucket_start by {
                    if a < g.len() {
                        assert(r[a] == g[a]);
                        assert(init.contains(g[a].members[m]));
                    } else {
                        assert(r[a].members[m] == p);
                    }
                }
                assert forall|a: int, b: int|
                    0 <= a < r.len() && 0 <= b < r.len() && a != b implies r[a].bucket_start
                    != r[b].bucket_start by {
                    if a < g.len() && b < g.len() {
                        assert(r[a] == g[a] && r[b] == g[b]);
                    } else if a < g.len() {
                        assert(r[a] == g[a]);
                    } else if b < g.len() {
                        assert(r[b] == g[b]);
                    }
                }
            },
        }
    }
}

} // verus!
