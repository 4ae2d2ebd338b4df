//! The numeric fields of a dataset and how each is reduced within a bucket.
use vstd::prelude::*;

use crate::text::range_eq;

verus! {

/// How the values of one field are combined across the samples of a bucket.
#[derive(Clone, Copy, Debug, PartialEq, Eq, Structural)]
pub enum Reducer {
    /// The total of the values (counts, volumes, unit totals).
    Sum,
    /// The mean of the values, rounded down (prices, member counts, ratios).
    Average,
}

/// One numeric field: the name it is stored and filtered under, the name a
/// bucket reports it under, its reducer, and how many decimal places its
/// integer values carry (a value `v` stands for `v / 10^decimals`).
pub struct FieldSpec {
    pub name: String,
    pub output: String,
    pub reducer: Reducer,
    pub decimals: u32,
}

/// The ordered numeric fields of a dataset; a sample holds one value per field.
pub struct Schema {
    pub fields: Vec<FieldSpec>,
}

/// The least position at which `names` holds `name`, if any.
pub open spec fn position_of(names: Seq<Seq<char>>, name: Seq<char>) -> Option<int> {
    if exists|i: int| 0 <= i < names.len() && names[i] == name {
        Some(
            choose|i: int|
                0 <= i < names.len() && names[i] == name && forall|j: int|
                    0 <= j < i ==> names[j] != name,
        )
    } else {
        None
    }
}

proof fn lemma_position_of_least(names: Seq<Seq<char>>, name: Seq<char>, i: int)
    requires
        0 <= i < names.len(),
        names[i] == name,
        forall|j: int| 0 <= j < i ==> names[j] != name,
    ensures
        position_of(names, name) == Some(i),
{
    let c = choose|c: int|
        0 <= c < names.len() && names[c] == name && forall|j: int| 0 <= j < c ==> names[j] != name;
    assert(0 <= c < names.len() && names[c] == name && forall|j: int|
        0 <= j < c ==> names[j] != name);
    if c < i {
        assert(names[c] != name);
    } else if c > i {
        assert(names[i] != name);
    }
}

impl Schema {
    /// The stored names of the fields, in order.
    pub open spec fn names(&self) -> Seq<Seq<char>> {
        self.fields@.map_values(|f: FieldSpec| f.name@)
    }

    /// The reported names of the fields, in order.
    pub open spec fn outputs(&self) -> Seq<Seq<char>> {
        self.fields@.map_values(|f: FieldSpec| f.output@)
    }

    /// The reducers of the fields, in order.
    pub open spec fn reducers(&self) -> Seq<Reducer> {
        self.fields@.map_values(|f: FieldSpec| f.reducer)
    }

    /// The decimal places of the fields, in order.
    pub open spec fn decimals(&self) -> Seq<u32> {
        self.fields@.map_values(|f: FieldSpec| f.decimals)
    }

    /// The number of fields.
    pub open spec fn width(&self) -> nat {
        self.fields@.len()
    }

    pub fn len(&self) -> (r: usize)
        ensures
            r == self.width(),
    {
        self.fields.len()
    }

    pub fn decimals_of(&self, i: usize) -> (r: u32)
        requires
            i < self.width(),
        ensures
            r == self.decimals()[i as int],
    {
        self.fields[i].decimals
    }

    pub fn reducer(&self, i: usize) -> (r: Reducer)
        requires
            i < self.width(),
        ensures
            r == self.reducers()[i as int],
    {
        self.fields[i].reducer
    }

    /// The position of the field stored under the name `s[lo..hi]`.
    pub fn find_name(&self, s: &Vec<char>, lo: usize, hi: usize) -> (r: Option<usize>)
        requires
            lo <= hi <= s@.len(),
        ensures
            r == match position_of(self.names(), s@.subrange(lo as int, hi as int)) {
                Some(i) => Some(i as usize),
                None => None,
            },
            r is Some ==> r->0 < self.width() && position_of(
                self.names(),
                s@.subrange(lo as int, hi as int),
            ) == Some(r->0 as int),
    {
        self.find_in(s, lo, hi, false)
    }

    /// The position of the field reported under the name `s[lo..hi]`.
    pub fn find_output(&self, s: &Vec<char>, lo: usize, hi: usize) -> (r: Option<usize>)
        requires
            lo <= hi <= s@.len(),
        ensures
            r == match position_of(self.outputs(), s@.subrange(lo as int, hi as int)) {
                Some(i) => Some(i as usize),
                None => None,
            },
            r is Some ==> r->0 < self.width() && position_of(
                self.outputs(),
                s@.subrange(lo as int, hi as int),
            ) == Some(r->0 as int),
    {
        self.find_in(s, lo, hi, true)
    }

    fn find_in(&self, s: &Vec<char>, lo: usize, hi: usize, by_output: bool) -> (r: Option<usize>)
        requires
            lo <= hi <= s@.len(),
        ensures
            r == match position_of(
                if by_output {
                    self.outputs()
                } else {
                    self.names()
                },
                s@.subrange(lo as int, hi as int),
            ) {
                Some(i) => Some(i as usize),
                None => None,
            },
            r is Some ==> r->0 < self.width() && position_of(
                if by_output {
                    self.outputs()
                } else {
                    self.names()
                },
                s@.subrange(lo as int, hi as int),
            ) == Some(r->0 as int),
    {
        let ghost names = if by_output {
            self.outputs()
        } else {
            self.names()
        };
        let ghost key = s@.subrange(lo as int, hi as int);
        let mut i: usize = 0;
        while i < self.fields.len()
            invariant
                lo <= hi <= s@.len(),
                key == s@.subrange(lo as int, hi as int),
                names == (if by_output {
                    self.outputs()
                } else {
                    self.names()
                }),
                names.len() == self.fields@.len(),
                i <= self.fields@.len(),
                forall|j: int| 0 <= j < i ==> names[j] != key,
            decreases self.fields@.len() - i,
        {
            let field = &self.fields[i];
            let hit = if by_output {
                range_eq(s, lo, hi, field.output.as_str())
            } else {
                range_eq(s, lo, hi, field.name.as_str())
            };
            if hit {
                proof {
                    lemma_position_of_least(names, key, i as int);
                }
                return Some(i);
            }
            i = i + 1;
        }
        None
    }

    /// The fields of a pool's depth history.
    pub fn depth() -> (r: Schema)
        ensures
            r.width() == 10,
            r.names() == seq![
                "assetDepth"@,
                "runeDepth"@,
                "liquidityUnits"@,
                "synthSupply"@,
                "synthUnits"@,
                "units"@,
                "membersCount"@,
                "assetPrice"@,
                "assetPriceUSD"@,
                "luvi"@,
            ],
            r.outputs() == seq![
                "assetDepth"@,
                "runeDepth"@,
                "liquidityUnits"@,
                "synthSupply"@,
                "synthUnits"@,
                "totalUnits"@,
                "membersCount"@,
                "assetPrice"@,
                "assetPriceUSD"@,
                "luvi"@,
            ],
            r.reducers() == seq![
                Reducer::Sum,
                Reducer::Sum,
                Reducer::Sum,
                Reducer::Sum,
                Reducer::Sum,
                Reducer::Sum,
                Reducer::Average,
                Reducer::Average,
                Reducer::Average,
                Reducer::Average,
            ],
            r.decimals() == seq![
                0u32,
                0u32,
                0u32,
                0u32,
                0u32,
                0u32,
                0u32,
                8u32,
                8u32,
                8u32,
            ],
    {
        let mut fields: Vec<FieldSpec> = Vec::new();
        fields.push(field("assetDepth", "assetDepth", Reducer::Sum, 0));
        fields.push(field("runeDepth", "runeDepth", Reducer::Sum, 0));
        fields.push(field("liquidityUnits", "liquidityUnits", Reducer::Sum, 0));
        fields.push(field("synthSupply", "synthSupply", Reducer::Sum, 0));
        fields.push(field("synthUnits", "synthUnits", Reducer::Sum, 0));
        fields.push(field("units", "totalUnits", Reducer::Sum, 0));
        fields.push(field("membersCount", "membersCount", Reducer::Average, 0));
        fields.push(field("assetPrice", "assetPrice", Reducer::Average, 8));
        fields.push(field("assetPriceUSD", "assetPriceUSD", Reducer::Average, 8));
        fields.push(field("luvi", "luvi", Reducer::Average, 8));
        let r = Schema { fields };
        proof {
            assert(r.decimals() =~= seq![
                0u32,
                0u32,
                0u32,
                0u32,
                0u32,
                0u32,
                0u32,
                8u32,
                8u32,
                8u32,
            ]);
            assert(r.names() =~= seq![
                "assetDepth"@,
                "runeDepth"@,
                "liquidityUnits"@,
                "synthSupply"@,
                "synthUnits"@,
                "units"@,
                "membersCount"@,
                "assetPrice"@,
                "assetPriceUSD"@,
                "luvi"@,
            ]);
            assert(r.outputs() =~= seq![
                "assetDepth"@,
                "runeDepth"@,
                "liquidityUnits"@,
                "synthSupply"@,
                "synthUnits"@,
                "totalUnits"@,
                "membersCount"@,
                "assetPrice"@,
                "assetPriceUSD"@,
                "luvi"@,
            ]);
            assert(r.reducers() =~= seq![
                Reducer::Sum,
                Reducer::Sum,
                Reducer::Sum,
                Reducer::Sum,
                Reducer::Sum,
                Reducer::Sum,
                Reducer::Average,
                Reducer::Average,
                Reducer::Average,
                Reducer::Average,
            ]);
        }
        r
    }

    /// The fields of the network's earnings history.
    pub fn earnings() -> (r: Schema)
        ensures
            r.width() == 7,
            r.names() == seq![
                "liquidityFees"@,
                "blockRewards"@,
                "earnings"@,
                "bondingEarnings"@,
                "liquidityEarnings"@,
                "avgNodeCount"@,
                "runePriceUSD"@,
            ],
            r.outputs() == seq![
                "liquidityFees"@,
                "blockRewards"@,
                "earnings"@,
                "bondingEarnings"@,
                "liquidityEarnings"@,
                "avgNodeCount"@,
                "runePriceUSD"@,
            ],
            r.reducers() == seq![
                Reducer::Sum,
                Reducer::Sum,
                Reducer::Sum,
                Reducer::Sum,
                Reducer::Sum,
                Reducer::Average,
                Reducer::Average,
            ],
            r.decimals() == seq![
                0u32,
                0u32,
                0u32,
                0u32,
                0u32,
                8u32,
                8u32,
            ],
    {
        let mut fields: Vec<FieldSpec> = Vec::new();
        fields.push(field("liquidityFees", "liquidityFees", Reducer::Sum, 0));
        fields.push(field("blockRewards", "blockRewards", Reducer::Sum, 0));
        fields.push(field("earnings", "earnings", Reducer::Sum, 0));
        fields.push(field("bondingEarnings", "bondingEarnings", Reducer::Sum, 0));
        fields.push(field("liquidityEarnings", "liquidityEarnings", Reducer::Sum, 0));
        fields.push(field("avgNodeCount", "avgNodeCount", Reducer::Average, 8));
        fields.push(field("runePriceUSD", "runePriceUSD", Reducer::Average, 8));
        let r = Schema { fields };
        proof {
            assert(r.decimals() =~= seq![
                0u32,
                0u32,
                0u32,
                0u32,
                0u32,
                8u32,
                8u32,
            ]);
            assert(r.names() =~= seq![
                "liquidityFees"@,
                "blockRewards"@,
                "earnings"@,
                "bondingEarnings"@,
                "liquidityEarnings"@,
                "avgNodeCount"@,
                "runePriceUSD"@,
            ]);
            assert(r.outputs() =~= seq![
                "liquidityFees"@,
                "blockRewards"@,
                "earnings"@,
                "bondingEarnings"@,
                "liquidityEarnings"@,
                "avgNodeCount"@,
                "runePriceUSD"@,
            ]);
            assert(r.reducers() =~= seq![
                Reducer::Sum,
                Reducer::Sum,
                Reducer::Sum,
                Reducer::Sum,
                Reducer::Sum,
                Reducer::Average,
                Reducer::Average,
            ]);
        }
        r
    }

    /// The fields of the swaps history.
    pub fn swaps() -> (r: Schema)
        ensures
            r.width() == 19,
            r.names() == seq![
                "toAssetCount"@,
                "toRuneCount"@,
                "toTradeCount"@,
                "fromTradeCount"@,
                "toSecuredCount"@,
                "fromSecuredCount"@,
                "synthMintCount"@,
                "synthRedeemCount"@,
                "totalCount"@,
                "toAssetVolume"@,
                "toRuneVolume"@,
                "toTradeVolume"@,
                "fromTradeVolume"@,
                "toSecuredVolume"@,
                "fromSecuredVolume"@,
                "synthMintVolume"@,
                "synthRedeemVolume"@,
                "totalVolume"@,
                "runePriceUSD"@,
            ],
            r.outputs() == seq![
                "toAssetCount"@,
                "toRuneCount"@,
                "toTradeCount"@,
                "fromTradeCount"@,
                "toSecuredCount"@,
                "fromSecuredCount"@,
                "synthMintCount"@,
                "synthRedeemCount"@,
                "totalCount"@,
                "toAssetVolume"@,
                "toRuneVolume"@,
                "toTradeVolume"@,
                "fromTradeVolume"@,
                "toSecuredVolume"@,
                "fromSecuredVolume"@,
                "synthMintVolume"@,
                "synthRedeemVolume"@,
                "totalVolume"@,
                "runePriceUSD"@,
            ],
            r.reducers() == seq![
                Reducer::Sum,
                Reducer::Sum,
                Reducer::Sum,
                Reducer::Sum,
                Reducer::Sum,
                Reducer::Sum,
                Reducer::Sum,
                Reducer::Sum,
                Reducer::Sum,
                Reducer::Sum,
                Reducer::Sum,
                Reducer::Sum,
                Reducer::Sum,
                Reducer::Sum,
                Reducer::Sum,
                Reducer::Sum,
                Reducer::Sum,
                Reducer::Sum,
                Reducer::Average,
            ],
            r.decimals() == seq![
                0u32,
                0u32,
                0u32,
                0u32,
                0u32,
                0u32,
                0u32,
                0u32,
                0u32,
                0u32,
                0u32,
                0u32,
                0u32,
                0u32,
                0u32,
                0u32,
                0u32,
                0u32,
                8u32,
            ],
    {
        let mut fields: Vec<FieldSpec> = Vec::new();
        fields.push(field("toAssetCount", "toAssetCount", Reducer::Sum, 0));
        fields.push(field("toRuneCount", "toRuneCount", Reducer::Sum, 0));
        fields.push(field("toTradeCount", "toTradeCount", Reducer::Sum, 0));
        fields.push(field("fromTradeCount", "fromTradeCount", Reducer::Sum, 0));
        fields.push(field("toSecuredCount", "toSecuredCount", Reducer::Sum, 0));
        fields.push(field("fromSecuredCount", "fromSecuredCount", Reducer::Sum, 0));
        fields.push(field("synthMintCount", "synthMintCount", Reducer::Sum, 0));
        fields.push(field("synthRedeemCount", "synthRedeemCount", Reducer::Sum, 0));
        fields.push(field("totalCount", "totalCount", Reducer::Sum, 0));
        fields.push(field("toAssetVolume", "toAssetVolume", Reducer::Sum, 0));
        fields.push(field("toRuneVolume", "toRuneVolume", Reducer::Sum, 0));
        fields.push(field("toTradeVolume", "toTradeVolume", Reducer::Sum, 0));
        fields.push(field("fromTradeVolume", "fromTradeVolume", Reducer::Sum, 0));
        fields.push(field("toSecuredVolume", "toSecuredVolume", Reducer::Sum, 0));
        fields.push(field("fromSecuredVolume", "fromSecuredVolume", Reducer::Sum, 0));
        fields.push(field("synthMintVolume", "synthMintVolume", Reducer::Sum, 0));
        fields.push(field("synthRedeemVolume", "synthRedeemVolume", Reducer::Sum, 0));
        fields.push(field("totalVolume", "totalVolume", Reducer::Sum, 0));
        fields.push(field("runePriceUSD", "runePriceUSD", Reducer::Average, 8));
        let r = Schema { fields };
        proof {
            assert(r.decimals() =~= seq![
                0u32,
                0u32,
                0u32,
                0u32,
                0u32,
                0u32,
                0u32,
                0u32,
                0u32,
                0u32,
                0u32,
                0u32,
                0u32,
                0u32,
                0u32,
                0u32,
                0u32,
                0u32,
                8u32,
            ]);
            assert(r.names() =~= seq![
                "toAssetCount"@,
                "toRuneCount"@,
                "toTradeCount"@,
                "fromTradeCount"@,
                "toSecuredCount"@,
                "fromSecuredCount"@,
                "synthMintCount"@,
                "synthRedeemCount"@,
                "totalCount"@,
                "toAssetVolume"@,
                "toRuneVolume"@,
                "toTradeVolume"@,
                "fromTradeVolume"@,
                "toSecuredVolume"@,
                "fromSecuredVolume"@,
                "synthMintVolume"@,
                "synthRedeemVolume"@,
                "totalVolume"@,
                "runePriceUSD"@,
            ]);
            assert(r.outputs() =~= seq![
                "toAssetCount"@,
                "toRuneCount"@,
                "toTradeCount"@,
                "fromTradeCount"@,
                "toSecuredCount"@,
                "fromSecuredCount"@,
                "synthMintCount"@,
                "synthRedeemCount"@,
                "totalCount"@,
                "toAssetVolume"@,
                "toRuneVolume"@,
                "toTradeVolume"@,
                "fromTradeVolume"@,
                "toSecuredVolume"@,
                "fromSecuredVolume"@,
                "synthMintVolume"@,
                "synthRedeemVolume"@,
                "totalVolume"@,
                "runePriceUSD"@,
            ]);
            assert(r.reducers() =~= seq![
                Reducer::Sum,
                Reducer::Sum,
                Reducer::Sum,
                Reducer::Sum,
                Reducer::Sum,
                Reducer::Sum,
                Reducer::Sum,
                Reducer::Sum,
                Reducer::Sum,
                Reducer::Sum,
                Reducer::Sum,
                Reducer::Sum,
                Reducer::Sum,
                Reducer::Sum,
                Reducer::Sum,
                Reducer::Sum,
                Reducer::Sum,
                Reducer::Sum,
                Reducer::Average,
            ]);
        }
        r
    }

    /// The fields of the rune pool history.
    pub fn rune_pool() -> (r: Schema)
        ensures
            r.width() == 2,
            r.names() == seq!["count"@, "units"@],
            r.outputs() == seq!["count"@, "units"@],
            r.reducers() == seq![Reducer::Sum, Reducer::Sum],
            r.decimals() == seq![0u32, 0u32],
    {
        let mut fields: Vec<FieldSpec> = Vec::new();
        fields.push(field("count", "count", Reducer::Sum, 0));
        fields.push(field("units", "units", Reducer::Sum, 0));
        let r = Schema { fields };
        proof {
            assert(r.decimals() =~= seq![0u32, 0u32]);
            assert(r.names() =~= seq!["count"@, "units"@]);
            assert(r.outputs() =~= seq!["count"@, "units"@]);
            assert(r.reducers() =~= seq![Reducer::Sum, Reducer::Sum]);
        }
        r
    }
}

fn field(name: &str, output: &str, reducer: Reducer, decimals: u32) -> (r: FieldSpec)
    ensures
        r.name@ == name@,
        r.output@ == output@,
        r.reducer == reducer,
        r.decimals == decimals,
{
    FieldSpec { name: name.to_owned(), output: output.to_owned(), reducer, decimals }
}

} // verus!
