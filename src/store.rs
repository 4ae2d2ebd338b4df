//! Stored records of raw samples, and the selection of samples for a query.
use vstd::prelude::*;

use crate::filter::{check_all, passes_all, Filter};

verus! {

/// One raw observation: its time range and one value per schema field.
pub struct Sample {
    pub start_time: i64,
    pub end_time: i64,
    pub values: Vec<u64>,
}

/// One ingested response: the range its meta declares, and its samples.
pub struct Record {
    pub start_time: i64,
    pub end_time: i64,
    pub samples: Vec<Sample>,
}

/// Where a sample stands: the index of its record, then its index in that record.
pub type Position = (usize, usize);

/// Whether every sample of every record holds one value per field.
pub open spec fn records_fit(records: Seq<Record>, width: nat) -> bool {
    forall|r: int, j: int|
        0 <= r < records.len() && 0 <= j < records[r].samples@.len() ==> (
        #[trigger] records[r].samples@[j]).values@.len() == width
    }

/// Whether `p` names a sample of `records`.
pub open spec fn valid_position(records: Seq<Record>, p: Position) -> bool {
    p.0 < records.len() && p.1 < records[p.0 as int].samples@.len()
}

/// The sample that `p` names.
pub open spec fn sample_at(records: Seq<Record>, p: Position) -> Sample {
    records[p.0 as int].samples@[p.1 as int]
}

/// The positions of the samples of record `r`, in order.
pub open spec fn record_positions(r: int, n: nat) -> Seq<Position> {
    Seq::new(n, |j: int| (r as usize, j as usize))
}

/// The positions of all samples, record by record, each record's in order.
pub open spec fn all_positions(records: Seq<Record>) -> Seq<Position>
    decreases records.len(),
{
    if records.len() == 0 {
        Seq::empty()
    } else {
        all_positions(records.drop_last()) + record_positions(
            records.len() - 1,
            records.last().samples@.len(),
        )
    }
}

/// The range and filters that decide which samples a query reads.
pub struct Selection {
    pub from: i64,
    pub to: i64,
    pub filters: Vec<Filter>,
}

/// Whether a record's declared range meets `[from, to]`.
pub open spec fn record_meets(rec: Record, from: int, to: int) -> bool {
    rec.start_time <= to && rec.end_time >= from
}

/// Whether the sample at `p` is read: its record meets the range, the sample
/// starts at or after `from`, and it passes every filter.
pub open spec fn keeps(records: Seq<Record>, sel: Selection, p: Position) -> bool {
    let s = sample_at(records, p);
    &&& record_meets(records[p.0 as int], sel.from as int, sel.to as int)
    &&& sel.from <= s.start_time
    &&& passes_all(sel.filters@, s.values@)
}

/// The positions among `ps` that are kept, in order.
pub open spec fn kept(records: Seq<Record>, sel: Selection, ps: Seq<Position>) -> Seq<Position>
    decreases ps.len(),
{
    if ps.len() == 0 {
        Seq::empty()
    } else if keeps(records, sel, ps.last()) {
        kept(records, sel, ps.drop_last()).push(ps.last())
    } else {
        kept(records, sel, ps.drop_last())
    }
}

/// The positions of the samples a query reads, in stored order.
pub open spec fn selected(records: Seq<Record>, sel: Selection) -> Seq<Position> {
    kept(records, sel, all_positions(records))
}

/// Whether the records and their sample lists have lengths a `usize` can count,
/// as every stored vector does.
pub open spec fn countable(records: Seq<Record>) -> bool {
    &&& records.len() <= usize::MAX
    &&& forall|r: int| 0 <= r < records.len() ==> #[trigger] records[r].samples@.len() <= usize::MAX
}

pub proof fn lemma_all_positions_valid(records: Seq<Record>)
    requires
        countable(records),
    ensures
        forall|k: int|
            0 <= k < all_positions(records).len() ==> valid_position(
                records,
                #[trigger] all_positions(records)[k],
            ),
    decreases records.len(),
{
    if records.len() > 0 {
        let init = records.drop_last();
        assert(countable(init)) by {
            assert forall|r: int| 0 <= r < init.len() implies #[trigger] init[r].samples@.len()
                <= usize::MAX by {
                assert(init[r] == records[r]);
            }
        }
        lemma_all_positions_valid(init);
        let a = all_positions(init);
        let b = record_positions(records.len() - 1, records.last().samples@.len());
        assert(records.last().samples@.len() <= usize::MAX);
        assert forall|k: int| 0 <= k < all_positions(records).len() implies valid_position(
            records,
            #[trigger] all_positions(records)[k],
        ) by {
            if k < a.len() {
                assert(all_positions(records)[k] == a[k]);
                assert(valid_position(init, a[k]));
                assert(records[a[k].0 as int] == init[a[k].0 as int]);
            } else {
                assert(all_positions(records)[k] == b[k - a.len()]);
            }
        }
    }
}

/// Every position a selection keeps is a valid one, and is kept for cause.
pub proof fn lemma_selected_valid(records: Seq<Record>, sel: Selection)
    requires
        countable(records),
    ensures
        forall|k: int|
            0 <= k < selected(records, sel).len() ==> valid_position(
                records,
                #[trigger] selected(records, sel)[k],
            ),
        forall|k: int|
            0 <= k < selected(records, sel).len() ==> keeps(
                records,
                sel,
                #[trigger] selected(records, sel)[k],
            ),
{
    lemma_all_positions_valid(records);
    lemma_kept_valid(records, sel, all_positions(records));
}

/// If every sample that one selection keeps is kept by another, then every
/// position the first selects, the second selects too.
pub proof fn lemma_kept_widens(records: Seq<Record>, a: Selection, b: Selection, ps: Seq<Position>)
    requires
        forall|p: Position| keeps(records, a, p) ==> keeps(records, b, p),
    ensures
        forall|x: Position| kept(records, a, ps).contains(x) ==> kept(records, b, ps).contains(x),
    decreases ps.len(),
{
    if ps.len() > 0 {
        let init = ps.drop_last();
        lemma_kept_widens(records, a, b, init);
        let ka = kept(records, a, ps);
        let kb = kept(records, b, ps);
        assert forall|x: Position| ka.contains(x) implies kb.contains(x) by {
            let i = choose|i: int| 0 <= i < ka.len() && ka[i] == x;
            let ka0 = kept(records, a, init);
            let kb0 = kept(records, b, init);
            if keeps(records, a, ps.last()) && i == ka.len() - 1 {
                assert(kb[kb.len() - 1] == x);
            } else {
                assert(ka0[i] == x);
                assert(ka0.contains(x));
                assert(kb0.contains(x));
                let m = choose|m: int| 0 <= m < kb0.len() && kb0[m] == x;
                if keeps(records, b, ps.last()) {
                    assert(kb[m] == x);
                } else {
                    assert(kb[m] == x);
                }
            }
        }
    }
}

/// The sum of field `j` over the kept positions grows when the keep rule widens.
pub proof fn lemma_kept_total_grows(
    records: Seq<Record>,
    a: Selection,
    b: Selection,
    ps: Seq<Position>,
    j: int,
)
    requires
        forall|p: Position| keeps(records, a, p) ==> keeps(records, b, p),
    ensures
        crate::bucket::samples_total(records, kept(records, a, ps), j)
            <= crate::bucket::samples_total(records, kept(records, b, ps), j),
    decreases ps.len(),
{
    if ps.len() > 0 {
        lemma_kept_total_grows(records, a, b, ps.drop_last(), j);
        let ka = kept(records, a, ps);
        let kb = kept(records, b, ps);
        if keeps(records, a, ps.last()) {
            assert(ka.drop_last() =~= kept(records, a, ps.drop_last()));
            assert(kb.drop_last() =~= kept(records, b, ps.drop_last()));
        } else if keeps(records, b, ps.last()) {
            assert(kb.drop_last() =~= kept(records, b, ps.drop_last()));
        }
    }
}

pub proof fn lemma_kept_valid(records: Seq<Record>, sel: Selection, ps: Seq<Position>)
    requires
        forall|k: int| 0 <= k < ps.len() ==> valid_position(records, #[trigger] ps[k]),
    ensures
        forall|k: int|
            0 <= k < kept(records, sel, ps).len() ==> valid_position(
                records,
                #[trigger] kept(records, sel, ps)[k],
            ),
        forall|k: int|
            0 <= k < kept(records, sel, ps).len() ==> keeps(
                records,
                sel,
                #[trigger] kept(records, sel, ps)[k],
            ),
        kept(records, sel, ps).len() <= ps.len(),
    decreases ps.len(),
{
    if ps.len() > 0 {
        let init = ps.drop_last();
        assert forall|k: int| 0 <= k < init.len() implies valid_position(records, #[trigger] init[k]) by {
            assert(init[k] == ps[k]);
        }
        lemma_kept_valid(records, sel, init);
        assert(valid_position(records, ps[ps.len() - 1]));
    }
}

/// Lists the positions of all samples, record by record.
pub fn list_positions(records: &Vec<Record>) -> (r: Vec<Position>)
    ensures
        r@ == all_positions(records@),
        forall|k: int| 0 <= k < r@.len() ==> valid_position(records@, #[trigger] r@[k]),
{
    let mut out: Vec<Position> = Vec::new();
    let mut ri: usize = 0;
    while ri < records.len()
        invariant
            ri <= records@.len(),
            out@ == all_positions(records@.subrange(0, ri as int)),
            forall|k: int| 0 <= k < out@.len() ==> valid_position(records@, #[trigger] out@[k]),
        decreases records@.len() - ri,
    {
        let n = records[ri].samples.len();
        let ghost base = out@;
        let mut si: usize = 0;
        while si < n
            invariant
                ri < records@.len(),
                n == records@[ri as int].samples@.len(),
                si <= n,
                out@ == base + record_positions(ri as int, si as nat),
                forall|k: int| 0 <= k < out@.len() ==> valid_position(records@, #[trigger] out@[k]),
            decreases n - si,
        {
            out.push((ri, si));
            proof {
                assert(out@ =~= base + record_positions(ri as int, (si + 1) as nat));
            }
            si = si + 1;
        }
        proof {
            let upto = records@.subrange(0, ri + 1);
            assert(upto.drop_last() =~= records@.subrange(0, ri as int));
            assert(upto.last() == records@[ri as int]);
        }
        ri = ri + 1;
    }
    proof {
        assert(records@.subrange(0, records@.len() as int) =~= records@);
    }
    out
}

/// Whether the sample at `p` is kept by the selection.
pub fn sample_kept(records: &Vec<Record>, sel: &Selection, p: Position) -> (r: bool)
    requires
        valid_position(records@, p),
    ensures
        r == keeps(records@, *sel, p),
{
    let rec = &records[p.0];
    let s = &rec.samples[p.1];
    rec.start_time <= sel.to && rec.end_time >= sel.from && sel.from <= s.start_time
        && check_all(&sel.filters, &s.values)
}

/// The positions of the samples that the selection reads, in stored order.
pub fn select_positions(records: &Vec<Record>, sel: &Selection) -> (r: Vec<Position>)
    ensures
        r@ == selected(records@, *sel),
        forall|k: int| 0 <= k < r@.len() ==> valid_position(records@, #[trigger] r@[k]),
        forall|k: int| 0 <= k < r@.len() ==> keeps(records@, *sel, #[trigger] r@[k]),
{
    let all = list_positions(records);

    let mut out: Vec<Position> = Vec::new();
    let mut i: usize = 0;
    while i < all.len()
        invariant
            i <= all@.len(),
            all@ == all_positions(records@),
            forall|k: int| 0 <= k < all@.len() ==> valid_position(records@, #[trigger] all@[k]),
            out@ == kept(records@, *sel, all@.subrange(0, i as int)),
        decreases all@.len() - i,
    {
        let p = all[i];
        proof {
            let upto = all@.subrange(0, i + 1);
            assert(upto.drop_last() =~= all@.subrange(0, i as int));
            assert(upto.last() == p);
        }
        if sample_kept(records, sel, p) {
            out.push(p);
        }
        i = i + 1;
    }
    proof {
        assert(all@.subrange(0, all@.len() as int) =~= all@);
        lemma_kept_valid(records@, *sel, all@);
    }
    out
}

} // verus!
