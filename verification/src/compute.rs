//! The metric engine: joins each source row to its reference record by
//! structural identity and derives the per-record metric tuple
//! `A`–`F` plus the per-position footer aggregates.
//!
//! Per row and stereospecific position, with `B` the (possibly transformed)
//! measured value and the reference entry supplying `min`, `max` and the
//! median `D`:
//! - `A = clamp(B, min, max)`;
//! - `C = |B - A| / A` (zero when `A` is zero), rounded to `round` decimal
//!   digits when `round` is positive;
//! - `E = 50 * C * D / sigma`, with `sigma` the dataset-wide sum of `D`;
//! - `F = E(sn123) + E(sn2)` per record.
//! A row with any of `B`, `min`, `max`, `D` absent gets a fully null tuple;
//! when `sigma` is zero every `E` of that position is null.
//!
//! The computation is two-pass: the joined inputs and `sigma` first, the
//! dependent metrics second. It is exact over the fixed-point model; a metric
//! that would leave the representable band fails the whole computation with
//! [`Error::ValueOutOfRange`], and the contract states exactly when that
//! happens.

use vstd::prelude::*;
use crate::error::Error;
use crate::fatty_acid::FattyAcidView;
use crate::numeric::{
    div_round, div_round_exec, in_limit, spec_clamp, spec_round_decimals, SCALE, VALUE_LIMIT,
};
use crate::reference::{ReferenceRecord, ReferenceRecordView, ReferenceTable};
use crate::settings::Settings;
use crate::source::{SourceRowView, SourceTable};

verus! {

/// The fixed per-position share of the normalization budget.
pub const SHARE_BUDGET: i64 = 50;

/// The metric tuple of one row at one position, plus the reference range it
/// was clamped into. Absent reference data leaves fields null.
#[derive(Clone, Copy, Debug, PartialEq, Eq)]
pub struct Metrics {
    pub a: Option<i64>,
    pub b: Option<i64>,
    pub c: Option<i64>,
    pub d: Option<i64>,
    pub e: Option<i64>,
    pub min: Option<i64>,
    pub max: Option<i64>,
}

/// One result row: the row index, the metric tuples of both positions and
/// the combined per-record signal `F`.
#[derive(Clone, Copy, Debug, PartialEq, Eq)]
pub struct ResultRow {
    pub index: u32,
    pub sn123: Metrics,
    pub sn2: Metrics,
    pub f: Option<i64>,
}

/// Footer aggregates of one position: the dataset-wide sum of `D` and the
/// unallocated part of the 50-unit budget.
#[derive(Clone, Copy, Debug, PartialEq, Eq)]
pub struct PositionFooter {
    pub sum: i128,
    pub residual: i128,
}

/// The computed result table: one row per source row plus both footers.
#[derive(Debug, PartialEq, Eq)]
pub struct ResultTable {
    pub rows: Vec<ResultRow>,
    pub sn123: PositionFooter,
    pub sn2: PositionFooter,
}

/// The mathematical value of a result table.
pub struct ResultTableView {
    pub rows: Seq<ResultRow>,
    pub sn123: PositionFooter,
    pub sn2: PositionFooter,
}

impl View for ResultTable {
    type V = ResultTableView;

    open spec fn view(&self) -> ResultTableView {
        ResultTableView { rows: self.rows@, sn123: self.sn123, sn2: self.sn2 }
    }
}

impl Clone for ResultTable {
    fn clone(&self) -> (r: Self)
        ensures
            r@ == self@,
    {
        let mut rows: Vec<ResultRow> = Vec::new();
        let mut i: usize = 0;
        while i < self.rows.len()
            invariant
                i <= self.rows@.len(),
                rows@ =~= self.rows@.subrange(0, i as int),
            decreases self.rows@.len() - i,
        {
            rows.push(self.rows[i]);
            i = i + 1;
        }
        proof {
            assert(self.rows@.subrange(0, self.rows@.len() as int) =~= self.rows@);
        }
        Self { rows, sn123: self.sn123, sn2: self.sn2 }
    }
}

impl ResultTable {
    /// The unallocated part of the whole 100-unit budget:
    /// `100 - sum of F` over the rows whose `F` is present.
    pub fn residual_total(&self) -> (r: i128)
        requires
            self@.rows.len() * (2 * VALUE_LIMIT as int)
                < 0x4000_0000_0000_0000_0000_0000_0000_0000int,
            forall|j: int| 0 <= j < self@.rows.len() ==> ((#[trigger] self@.rows[j]).f
                matches Some(x) ==> -2 * VALUE_LIMIT <= x <= 2 * VALUE_LIMIT),
        ensures
            r == 100 * (SCALE as int) - spec_sum_f(self@.rows),
    {
        let mut sum: i128 = 0;
        let mut i: usize = 0;
        proof {
            assert(self.rows@.take(0) =~= Seq::<ResultRow>::empty());
        }
        while i < self.rows.len()
            invariant
                i <= self.rows@.len(),
                sum as int == spec_sum_f(self.rows@.take(i as int)),
                forall|j: int| 0 <= j < self.rows@.len() ==> ((#[trigger] self.rows@[j]).f
                    matches Some(x) ==> -2 * VALUE_LIMIT <= x <= 2 * VALUE_LIMIT),
                self.rows@.len() * (2 * VALUE_LIMIT as int)
                    < 0x4000_0000_0000_0000_0000_0000_0000_0000int,
            decreases self.rows@.len() - i,
        {
            let add: i128 = match self.rows[i].f {
                Some(x) => x as i128,
                None => 0,
            };
            proof {
                lemma_sum_f_push(self.rows@.take(i as int), self.rows@[i as int]);
                assert(self.rows@.take(i + 1) =~= self.rows@.take(i as int).push(
                    self.rows@[i as int],
                ));
                lemma_take_bound(self.rows@, i + 1);
                assert(sum as int + add as int == spec_sum_f(self.rows@.take(i + 1)));
            }
            sum = sum + add;
            i = i + 1;
        }
        proof {
            assert(self.rows@.take(self.rows@.len() as int) =~= self.rows@);
            lemma_take_bound(self.rows@, self.rows@.len() as int);
        }
        100 * (SCALE as i128) - sum
    }
}

/// The sum of `F` over any prefix of a bounded result sequence stays far
/// inside the 128-bit range.
proof fn lemma_take_bound(s: Seq<ResultRow>, k: int)
    requires
        0 <= k <= s.len(),
        s.len() * (2 * VALUE_LIMIT as int) < 0x4000_0000_0000_0000_0000_0000_0000_0000int,
        forall|j: int| 0 <= j < s.len() ==> ((#[trigger] s[j]).f matches Some(x) ==> -2
            * VALUE_LIMIT <= x <= 2 * VALUE_LIMIT),
    ensures
        -(s.len() * (2 * VALUE_LIMIT as int)) <= spec_sum_f(s.take(k)) <= s.len() * (2
            * VALUE_LIMIT as int),
{
    lemma_sum_f_bound(s.take(k));
    assert((s.take(k)).len() * (2 * VALUE_LIMIT as int) <= s.len() * (2 * VALUE_LIMIT as int))
        by (nonlinear_arith)
        requires
            0 <= (s.take(k)).len() <= s.len(),
    {}
}

/// A sequence of bounded combined signals has a proportionally bounded sum.
proof fn lemma_sum_f_bound(s: Seq<ResultRow>)
    requires
        forall|j: int| 0 <= j < s.len() ==> ((#[trigger] s[j]).f matches Some(x) ==> -2
            * VALUE_LIMIT <= x <= 2 * VALUE_LIMIT),
    ensures
        -(s.len() * (2 * VALUE_LIMIT as int)) <= spec_sum_f(s) <= s.len() * (2
            * VALUE_LIMIT as int),
    decreases s.len(),
{
    if s.len() == 0 {
    } else {
        assert forall|j: int| 0 <= j < s.drop_first().len() implies ((
        #[trigger] s.drop_first()[j]).f matches Some(x) ==> -2 * VALUE_LIMIT <= x <= 2
            * VALUE_LIMIT) by {
            assert(s.drop_first()[j] == s[j + 1]);
        }
        lemma_sum_f_bound(s.drop_first());
        assert(s.len() * (2 * VALUE_LIMIT as int) == s.drop_first().len() * (2
            * VALUE_LIMIT as int) + 2 * (VALUE_LIMIT as int)) by (nonlinear_arith)
            requires
                s.len() == s.drop_first().len() + 1,
        {}
        assert(s[0].f matches Some(x) ==> -2 * VALUE_LIMIT <= x <= 2 * VALUE_LIMIT);
        assert(s.first() == s[0]);
    }
}

/// The sum of the present combined signals `F` of a result table.
pub open spec fn spec_sum_f(rows: Seq<ResultRow>) -> int
    decreases rows.len(),
{
    if rows.len() == 0 {
        0
    } else {
        (match rows.first().f {
            Some(x) => x,
            None => 0,
        }) + spec_sum_f(rows.drop_first())
    }
}

/// Appending a row adds its combined-signal contribution to the sum of `F`.
proof fn lemma_sum_f_push(s: Seq<ResultRow>, c: ResultRow)
    ensures
        spec_sum_f(s.push(c)) == spec_sum_f(s) + (match c.f {
            Some(x) => x,
            None => 0,
        }),
    decreases s.len(),
{
    if s.len() == 0 {
        assert(s.push(c).first() == c);
        assert(s.push(c).drop_first() =~= Seq::<ResultRow>::empty());
        assert(spec_sum_f(Seq::<ResultRow>::empty()) == 0);
        assert(spec_sum_f(s.push(c)) == (match c.f {
            Some(x) => x,
            None => 0,
        }) + spec_sum_f(s.push(c).drop_first()));
    } else {
        assert(s.push(c).drop_first() =~= s.drop_first().push(c));
        assert(s.push(c).first() == s.first());
        lemma_sum_f_push(s.drop_first(), c);
        assert(spec_sum_f(s.push(c)) == (match s.first().f {
            Some(x) => x,
            None => 0,
        }) + spec_sum_f(s.push(c).drop_first()));
    }
}

/// The joined inputs of one row at one position: the (possibly transformed)
/// measured value and the reference statistics, each possibly absent.
pub struct Cell {
    pub b: Option<int>,
    pub d: Option<int>,
    pub min: Option<int>,
    pub max: Option<int>,
}

/// The reference record whose identity equals `fatty_acid`, if any. With a
/// duplicate-free reference sequence the choice is unique.
pub open spec fn spec_lookup(
    refs: Seq<ReferenceRecordView>,
    fatty_acid: FattyAcidView,
) -> Option<ReferenceRecordView> {
    if exists|i: int| 0 <= i < refs.len() && (#[trigger] refs[i]).fatty_acid == fatty_acid {
        Some(
            refs[choose|i: int|
                0 <= i < refs.len() && (#[trigger] refs[i]).fatty_acid == fatty_acid],
        )
    } else {
        None
    }
}

/// The transformed position-2 measurement in relative mode:
/// `100 * sn2 / sn123 / 3`, or absent when `sn123` is absent or zero.
pub open spec fn spec_relative_b(row: SourceRowView) -> Option<int> {
    match (row.sn123, row.sn2) {
        (Some(s123), Some(s2)) => if s123 != 0 {
            Some(div_round(100 * s2 * SCALE, 3 * s123))
        } else {
            None
        },
        _ => None,
    }
}

/// Widens an optional raw value to an optional integer.
pub open spec fn opt_int(x: Option<i64>) -> Option<int> {
    match x {
        None => None,
        Some(v) => Some(v as int),
    }
}

/// The joined inputs of one row at one position.
pub open spec fn spec_cell(
    row: SourceRowView,
    refs: Seq<ReferenceRecordView>,
    position2: bool,
    relative: bool,
) -> Cell {
    let entry = match spec_lookup(refs, row.fatty_acid) {
        None => Cell { b: None, d: None, min: None, max: None },
        Some(rec) => {
            let e = if position2 {
                rec.sn2
            } else {
                rec.sn123
            };
            Cell { b: None, d: opt_int(e.median), min: opt_int(e.min), max: opt_int(e.max) }
        },
    };
    let b = if position2 {
        if relative {
            spec_relative_b(row)
        } else {
            opt_int(row.sn2)
        }
    } else {
        opt_int(row.sn123)
    };
    Cell { b, d: entry.d, min: entry.min, max: entry.max }
}

/// The joined inputs of every row at one position.
pub open spec fn spec_cells(
    rows: Seq<SourceRowView>,
    refs: Seq<ReferenceRecordView>,
    position2: bool,
    relative: bool,
) -> Seq<Cell> {
    Seq::new(rows.len(), |i: int| spec_cell(rows[i], refs, position2, relative))
}

/// Whether the whole tuple of this cell is null: so whenever any of `B`,
/// `min`, `max`, `D` is absent.
pub open spec fn cell_null(cell: Cell) -> bool {
    cell.b is None || cell.d is None || cell.min is None || cell.max is None
}

/// The clamped value `A` of a non-null cell.
pub open spec fn spec_a(cell: Cell) -> int {
    spec_clamp(cell.b.unwrap(), cell.min.unwrap(), cell.max.unwrap())
}

/// The relative deviation `C` of a non-null cell: `|B - A| / A` at raw
/// scale, zero when `A` is zero, rounded when `round` is positive.
pub open spec fn spec_c(cell: Cell, round: u32) -> int {
    let a = spec_a(cell);
    if a == 0 {
        0
    } else {
        let c0 = div_round(vstd::math::abs(cell.b.unwrap() - a) * SCALE, a);
        if round > 0 {
            spec_round_decimals(c0, round)
        } else {
            c0
        }
    }
}

/// The sum of the present medians `D` of a position, the normalization
/// denominator.
pub open spec fn spec_sigma(cells: Seq<Cell>) -> int
    decreases cells.len(),
{
    if cells.len() == 0 {
        0
    } else {
        (match cells.first().d {
            Some(d) => d,
            None => 0,
        }) + spec_sigma(cells.drop_first())
    }
}

/// The weighted share `E` of a non-null cell: `50 * C * D / sigma`, absent
/// when `sigma` is zero.
pub open spec fn spec_e(cell: Cell, sigma: int, round: u32) -> Option<int> {
    if sigma == 0 {
        None
    } else {
        Some(div_round(50 * spec_c(cell, round) * cell.d.unwrap(), sigma))
    }
}

/// The full metric tuple of one cell given the position's `sigma`.
pub open spec fn spec_metrics(cell: Cell, sigma: int, round: u32) -> Metrics {
    if cell_null(cell) {
        Metrics {
            a: None,
            b: None,
            c: None,
            d: None,
            e: None,
            min: opt_raw(cell.min),
            max: opt_raw(cell.max),
        }
    } else {
        Metrics {
            a: Some(spec_a(cell) as i64),
            b: Some(cell.b.unwrap() as i64),
            c: Some(spec_c(cell, round) as i64),
            d: Some(cell.d.unwrap() as i64),
            e: match spec_e(cell, sigma, round) {
                None => None,
                Some(e) => Some(e as i64),
            },
            min: opt_raw(cell.min),
            max: opt_raw(cell.max),
        }
    }
}

/// Narrows an optional integer back to a raw value; meaningful only for
/// values inside the representable band.
pub open spec fn opt_raw(x: Option<int>) -> Option<i64> {
    match x {
        None => None,
        Some(v) => Some(v as i64),
    }
}

/// The sum of the present shares `E` of a position.
pub open spec fn spec_sum_e(cells: Seq<Cell>, sigma: int, round: u32) -> int
    decreases cells.len(),
{
    if cells.len() == 0 {
        0
    } else {
        (if cell_null(cells.first()) {
            0
        } else {
            match spec_e(cells.first(), sigma, round) {
                Some(e) => e,
                None => 0,
            }
        }) + spec_sum_e(cells.drop_first(), sigma, round)
    }
}

/// Whether every metric this cell produces stays in the representable band.
pub open spec fn cell_ok(cell: Cell, sigma: int, round: u32) -> bool {
    &&& (cell.b matches Some(b) ==> in_limit(b))
    &&& (!cell_null(cell) ==> in_limit(spec_c(cell, round)))
    &&& (!cell_null(cell) ==> (spec_e(cell, sigma, round) matches Some(e) ==> in_limit(e)))
}

/// Whether the whole computation stays in the representable band.
pub open spec fn spec_computable(
    rows: Seq<SourceRowView>,
    refs: Seq<ReferenceRecordView>,
    relative: bool,
    round: u32,
) -> bool {
    let cells123 = spec_cells(rows, refs, false, relative);
    let cells2 = spec_cells(rows, refs, true, relative);
    let sigma123 = spec_sigma(cells123);
    let sigma2 = spec_sigma(cells2);
    &&& forall|i: int| 0 <= i < rows.len() ==> cell_ok(#[trigger] cells123[i], sigma123, round)
    &&& forall|i: int| 0 <= i < rows.len() ==> cell_ok(#[trigger] cells2[i], sigma2, round)
}

/// Adds two optional shares into the combined signal `F`, absent when either
/// side is absent.
pub open spec fn spec_f(e123: Option<i64>, e2: Option<i64>) -> Option<i64> {
    match (e123, e2) {
        (Some(x), Some(y)) => Some((x + y) as i64),
        _ => None,
    }
}

/// The whole result table as a mathematical value.
pub open spec fn spec_compute(
    rows: Seq<SourceRowView>,
    refs: Seq<ReferenceRecordView>,
    relative: bool,
    round: u32,
) -> ResultTableView {
    let cells123 = spec_cells(rows, refs, false, relative);
    let cells2 = spec_cells(rows, refs, true, relative);
    let sigma123 = spec_sigma(cells123);
    let sigma2 = spec_sigma(cells2);
    ResultTableView {
        rows: Seq::new(
            rows.len(),
            |i: int|
                {
                    let m123 = spec_metrics(cells123[i], sigma123, round);
                    let m2 = spec_metrics(cells2[i], sigma2, round);
                    ResultRow { index: i as u32, sn123: m123, sn2: m2, f: spec_f(m123.e, m2.e) }
                },
        ),
        sn123: PositionFooter {
            sum: sigma123 as i128,
            residual: (50 * SCALE - spec_sum_e(cells123, sigma123, round)) as i128,
        },
        sn2: PositionFooter {
            sum: sigma2 as i128,
            residual: (50 * SCALE - spec_sum_e(cells2, sigma2, round)) as i128,
        },
    }
}

/// The executable joined inputs of one row at one position.
#[derive(Clone, Copy, Debug)]
struct CellData {
    b: Option<i64>,
    d: Option<i64>,
    min: Option<i64>,
    max: Option<i64>,
}

/// The mathematical value of the executable cell.
spec fn cell_view(c: CellData) -> Cell {
    Cell { b: opt_int(c.b), d: opt_int(c.d), min: opt_int(c.min), max: opt_int(c.max) }
}

/// With a duplicate-free reference sequence, any matching record is the one
/// the specification's lookup picks.
proof fn lemma_lookup_agrees(
    refs: Seq<ReferenceRecordView>,
    fatty_acid: FattyAcidView,
    v: ReferenceRecordView,
)
    requires
        crate::reference::no_duplicate_identity(refs),
        exists|k: int| 0 <= k < refs.len() && #[trigger] refs[k] == v,
        v.fatty_acid == fatty_acid,
    ensures
        spec_lookup(refs, fatty_acid) == Some(v),
{
    let k = choose|k: int| 0 <= k < refs.len() && #[trigger] refs[k] == v;
    assert(refs[k].fatty_acid == fatty_acid);
    let j = choose|i: int| 0 <= i < refs.len() && (#[trigger] refs[i]).fatty_acid == fatty_acid;
    if j != k {
        assert(refs[j].fatty_acid == refs[k].fatty_acid);
        assert(false);
    }
}

/// Appending a cell adds its median contribution to the sum of `D`.
proof fn lemma_sigma_push(s: Seq<Cell>, c: Cell)
    ensures
        spec_sigma(s.push(c)) == spec_sigma(s) + (match c.d {
            Some(d) => d,
            None => 0,
        }),
    decreases s.len(),
{
    if s.len() == 0 {
        assert(s.push(c).first() == c);
        assert(s.push(c).drop_first() =~= Seq::<Cell>::empty());
        assert(spec_sigma(Seq::<Cell>::empty()) == 0);
        assert(spec_sigma(s.push(c)) == (match c.d {
            Some(d) => d,
            None => 0,
        }) + spec_sigma(s.push(c).drop_first()));
    } else {
        assert(s.push(c).drop_first() =~= s.drop_first().push(c));
        assert(s.push(c).first() == s.first());
        lemma_sigma_push(s.drop_first(), c);
        assert(spec_sigma(s.push(c)) == (match s.first().d {
            Some(d) => d,
            None => 0,
        }) + spec_sigma(s.push(c).drop_first()));
    }
}

/// Appending a cell adds its share contribution to the sum of `E`.
proof fn lemma_sum_e_push(s: Seq<Cell>, c: Cell, sigma: int, round: u32)
    ensures
        spec_sum_e(s.push(c), sigma, round) == spec_sum_e(s, sigma, round) + (if cell_null(c) {
            0
        } else {
            match spec_e(c, sigma, round) {
                Some(e) => e,
                None => 0,
            }
        }),
    decreases s.len(),
{
    if s.len() == 0 {
        assert(s.push(c).first() == c);
        assert(s.push(c).drop_first() =~= Seq::<Cell>::empty());
        assert(spec_sum_e(Seq::<Cell>::empty(), sigma, round) == 0);
    } else {
        assert(s.push(c).drop_first() =~= s.drop_first().push(c));
        assert(s.push(c).first() == s.first());
        lemma_sum_e_push(s.drop_first(), c, sigma, round);
    }
}

/// All inputs a cell carries stay in the representable band.
spec fn cell_input_limits(c: Cell) -> bool {
    &&& (c.b matches Some(x) ==> in_limit(x))
    &&& (c.d matches Some(x) ==> in_limit(x))
    &&& (c.min matches Some(x) ==> in_limit(x))
    &&& (c.max matches Some(x) ==> in_limit(x))
}

/// Computes the metric tuple of one cell, failing exactly when a metric
/// leaves the representable band.
fn cell_metrics(cell: CellData, sigma: i128, round: u32) -> (r: Result<Metrics, Error>)
    requires
        cell_view(cell).b matches Some(b) ==> in_limit(b),
        cell_view(cell).d matches Some(d) ==> in_limit(d),
        cell_view(cell).min matches Some(m) ==> in_limit(m),
        cell_view(cell).max matches Some(m) ==> in_limit(m),
        -crate::numeric::DIV_BOUND <= sigma <= crate::numeric::DIV_BOUND,
    ensures
        r is Ok <==> cell_ok(cell_view(cell), sigma as int, round),
        (r matches Ok(m) ==> m == spec_metrics(cell_view(cell), sigma as int, round)),
        r is Err ==> r == Err::<Metrics, Error>(Error::ValueOutOfRange),
{
    let (b, d, mn, mx) = match (cell.b, cell.d, cell.min, cell.max) {
        (Some(b), Some(d), Some(mn), Some(mx)) => (b, d, mn, mx),
        _ => {
            return Ok(
                Metrics {
                    a: None,
                    b: None,
                    c: None,
                    d: None,
                    e: None,
                    min: cell.min,
                    max: cell.max,
                },
            );
        },
    };
    let a: i64 = crate::numeric::clamp(b, mn, mx);
    let c: i128 = if a == 0 {
        0
    } else {
        let diff: i128 = (b as i128) - (a as i128);
        let magnitude: i128 = if diff < 0 {
            -diff
        } else {
            diff
        };
        let c0: i128 = div_round_exec(magnitude * (SCALE as i128), a as i128);
        proof {
            crate::numeric::lemma_div_round_magnitude(
                magnitude as int * SCALE as int,
                a as int,
            );
        }
        if round > 0 {
            crate::numeric::round_decimals(c0, round)
        } else {
            c0
        }
    };
    proof {
        assert(c as int == spec_c(cell_view(cell), round));
    }
    if c < -(VALUE_LIMIT as i128) || c > (VALUE_LIMIT as i128) {
        return Err(Error::ValueOutOfRange);
    }
    let e: Option<i64> = if sigma == 0 {
        None
    } else {
        let dd: i128 = d as i128;
        proof {
            assert(in_limit(d as int));
            assert(dd as int == d as int);
            assert(-(VALUE_LIMIT as int) <= c as int <= VALUE_LIMIT as int);
            assert((c as int) * (dd as int) <= 10000000000000000000000000000000000int
                && (c as int) * (dd as int) >= -10000000000000000000000000000000000int)
                by (nonlinear_arith)
                requires
                    -100000000000000000int <= c as int <= 100000000000000000int,
                    -100000000000000000int <= dd as int <= 100000000000000000int,
            {}
        }
        let cd: i128 = c * dd;
        let num: i128 = 50 * cd;
        proof {
            assert((50 * (c as int)) * (dd as int) == 50 * ((c as int) * (dd as int)))
                by (nonlinear_arith);
            assert(num as int == 50 * spec_c(cell_view(cell), round) * (d as int));
        }
        let ev: i128 = div_round_exec(num, sigma);
        if ev < -(VALUE_LIMIT as i128) || ev > (VALUE_LIMIT as i128) {
            return Err(Error::ValueOutOfRange);
        }
        Some(ev as i64)
    };
    Ok(Metrics { a: Some(a), b: Some(b), c: Some(c as i64), d: Some(d), e, min: cell.min, max: cell.max })
}

/// Joins, computes and aggregates: the deterministic transformation from the
/// source table and the settings to the result table. It succeeds exactly
/// when every produced metric is representable, and then returns exactly the
/// table that [`spec_compute`] describes.
pub fn compute(table: &SourceTable, reference: &ReferenceTable, settings: &Settings) -> (r: Result<
    ResultTable,
    Error,
>)
    requires
        table.wf(),
        reference.wf(),
        table@.len() <= u32::MAX,
    ensures
        r is Ok <==> spec_computable(table@, reference@, settings.relative, settings.round),
        (r matches Ok(t) ==> t@ == spec_compute(
            table@,
            reference@,
            settings.relative,
            settings.round,
        )),
        r is Err ==> r == Err::<ResultTable, Error>(Error::ValueOutOfRange),
{
    let ghost rows = table@;
    let ghost refs = reference@;
    let relative = settings.relative;
    let round = settings.round;
    let ghost g123 = spec_cells(rows, refs, false, relative);
    let ghost g2 = spec_cells(rows, refs, true, relative);
    let n: usize = table.rows.len();
    let mut cells123: Vec<CellData> = Vec::new();
    let mut cells2: Vec<CellData> = Vec::new();
    let mut sum123: i128 = 0;
    let mut sum2: i128 = 0;
    let mut i: usize = 0;
    proof {
        assert(g123.take(0) =~= Seq::<Cell>::empty());
        assert(g2.take(0) =~= Seq::<Cell>::empty());
    }
    while i < n
        invariant
            i <= n,
            n == rows.len(),
            table.wf(),
            reference.wf(),
            rows == table@,
            refs == reference@,
            relative == settings.relative,
            round == settings.round,
            g123 == spec_cells(rows, refs, false, relative),
            g2 == spec_cells(rows, refs, true, relative),
            rows.len() <= u32::MAX,
            cells123@.len() == i,
            cells2@.len() == i,
            forall|j: int| 0 <= j < i ==> cell_view(#[trigger] cells123@[j]) == g123[j],
            forall|j: int| 0 <= j < i ==> cell_view(#[trigger] cells2@[j]) == g2[j],
            forall|j: int| 0 <= j < i ==> cell_input_limits(#[trigger] g123[j]),
            forall|j: int| 0 <= j < i ==> cell_input_limits(#[trigger] g2[j]),
            sum123 as int == spec_sigma(g123.take(i as int)),
            sum2 as int == spec_sigma(g2.take(i as int)),
            -(i as int) * (VALUE_LIMIT as int) <= sum123 as int <= (i as int) * (
            VALUE_LIMIT as int),
            -(i as int) * (VALUE_LIMIT as int) <= sum2 as int <= (i as int) * (
            VALUE_LIMIT as int),
        decreases n - i,
    {
        let row = &table.rows[i];
        proof {
            assert(row@ == rows[i as int]);
            assert(rows[i as int].wf());
        }
        let found = reference.lookup(&row.fatty_acid);
        let (d123, mn123, mx123, d2, mn2, mx2) = match found {
            Some(rec) => {
                proof {
                    lemma_lookup_agrees(refs, rows[i as int].fatty_acid, rec@);
                    let k = choose|k: int| 0 <= k < refs.len() && #[trigger] refs[k] == rec@;
                    assert(refs[k].wf());
                    assert(rec@.sn123.wf() && rec@.sn2.wf());
                }
                (rec.sn123.median, rec.sn123.min, rec.sn123.max, rec.sn2.median, rec.sn2.min,
                rec.sn2.max)
            },
            None => (None, None, None, None, None, None),
        };
        let b2: Option<i64> = if relative {
            match (row.sn123, row.sn2) {
                (Some(s123), Some(s2)) => {
                    if s123 != 0 {
                        let num: i128 = 100 * (s2 as i128) * (SCALE as i128);
                        let den: i128 = 3 * (s123 as i128);
                        let v: i128 = div_round_exec(num, den);
                        if v < -(VALUE_LIMIT as i128) || v > (VALUE_LIMIT as i128) {
                            proof {
                                assert(g2[i as int] == spec_cell(rows[i as int], refs, true, true));
                                assert(g2[i as int].b == Some(v as int));
                                assert(!cell_ok(g2[i as int], spec_sigma(g2), round));
                            }
                            return Err(Error::ValueOutOfRange);
                        }
                        Some(v as i64)
                    } else {
                        None
                    }
                },
                _ => None,
            }
        } else {
            row.sn2
        };
        let c123 = CellData { b: row.sn123, d: d123, min: mn123, max: mx123 };
        let c2 = CellData { b: b2, d: d2, min: mn2, max: mx2 };
        proof {
            assert(cell_view(c123) == g123[i as int]);
            assert(cell_view(c2) == g2[i as int]);
            assert(cell_input_limits(g123[i as int]));
            assert(cell_input_limits(g2[i as int]));
            lemma_sigma_push(g123.take(i as int), g123[i as int]);
            lemma_sigma_push(g2.take(i as int), g2[i as int]);
            assert(g123.take(i + 1) =~= g123.take(i as int).push(g123[i as int]));
            assert(g2.take(i + 1) =~= g2.take(i as int).push(g2[i as int]));
        }
        let add123: i128 = match c123.d {
            Some(x) => x as i128,
            None => 0,
        };
        let add2: i128 = match c2.d {
            Some(x) => x as i128,
            None => 0,
        };
        cells123.push(c123);
        cells2.push(c2);
        sum123 = sum123 + add123;
        sum2 = sum2 + add2;
        i = i + 1;
    }
    proof {
        assert(g123.take(n as int) =~= g123);
        assert(g2.take(n as int) =~= g2);
    }
    let ghost sigma123 = spec_sigma(g123);
    let ghost sigma2 = spec_sigma(g2);
    let ghost expected = spec_compute(rows, refs, relative, round);
    let mut out: Vec<ResultRow> = Vec::new();
    let mut sume123: i128 = 0;
    let mut sume2: i128 = 0;
    let mut i: usize = 0;
    proof {
        assert(g123.take(0) =~= Seq::<Cell>::empty());
        assert(g2.take(0) =~= Seq::<Cell>::empty());
    }
    while i < n
        invariant
            i <= n,
            n == rows.len(),
            rows.len() <= u32::MAX,
            rows == table@,
            refs == reference@,
            relative == settings.relative,
            round == settings.round,
            g123 == spec_cells(rows, refs, false, relative),
            g2 == spec_cells(rows, refs, true, relative),
            sigma123 == spec_sigma(g123),
            sigma2 == spec_sigma(g2),
            expected == spec_compute(rows, refs, relative, round),
            cells123@.len() == n,
            cells2@.len() == n,
            forall|j: int| 0 <= j < n ==> cell_view(#[trigger] cells123@[j]) == g123[j],
            forall|j: int| 0 <= j < n ==> cell_view(#[trigger] cells2@[j]) == g2[j],
            forall|j: int| 0 <= j < n ==> cell_input_limits(#[trigger] g123[j]),
            forall|j: int| 0 <= j < n ==> cell_input_limits(#[trigger] g2[j]),
            sum123 as int == sigma123,
            sum2 as int == sigma2,
            -(n as int) * (VALUE_LIMIT as int) <= sum123 as int <= (n as int) * (
            VALUE_LIMIT as int),
            -(n as int) * (VALUE_LIMIT as int) <= sum2 as int <= (n as int) * (
            VALUE_LIMIT as int),
            out@.len() == i,
            forall|j: int| 0 <= j < i ==> out@[j] == expected.rows[j],
            forall|j: int| 0 <= j < i ==> cell_ok(#[trigger] g123[j], sigma123, round),
            forall|j: int| 0 <= j < i ==> cell_ok(#[trigger] g2[j], sigma2, round),
            sume123 as int == spec_sum_e(g123.take(i as int), sigma123, round),
            sume2 as int == spec_sum_e(g2.take(i as int), sigma2, round),
            -(i as int) * (VALUE_LIMIT as int) <= sume123 as int <= (i as int) * (
            VALUE_LIMIT as int),
            -(i as int) * (VALUE_LIMIT as int) <= sume2 as int <= (i as int) * (
            VALUE_LIMIT as int),
        decreases n - i,
    {
        proof {
            assert((n as int) * (VALUE_LIMIT as int) <= crate::numeric::DIV_BOUND as int)
                by (nonlinear_arith)
                requires
                    0 <= n as int <= 0xffff_ffff_ffff_ffffu64 as int,
            {}
        }
        let m123 = match cell_metrics(cells123[i], sum123, round) {
            Ok(m) => m,
            Err(_) => {
                return Err(Error::ValueOutOfRange);
            },
        };
        let m2 = match cell_metrics(cells2[i], sum2, round) {
            Ok(m) => m,
            Err(_) => {
                return Err(Error::ValueOutOfRange);
            },
        };
        proof {
            assert(m123 == spec_metrics(g123[i as int], sigma123, round));
            assert(m2 == spec_metrics(g2[i as int], sigma2, round));
            if m123.e is Some {
                assert(in_limit(m123.e.unwrap() as int));
            }
            if m2.e is Some {
                assert(in_limit(m2.e.unwrap() as int));
            }
        }
        let f: Option<i64> = match (m123.e, m2.e) {
            (Some(x), Some(y)) => Some(x + y),
            _ => None,
        };
        let rr = ResultRow { index: i as u32, sn123: m123, sn2: m2, f };
        proof {
            assert(rr == expected.rows[i as int]);
            lemma_sum_e_push(g123.take(i as int), g123[i as int], sigma123, round);
            lemma_sum_e_push(g2.take(i as int), g2[i as int], sigma2, round);
            assert(g123.take(i + 1) =~= g123.take(i as int).push(g123[i as int]));
            assert(g2.take(i + 1) =~= g2.take(i as int).push(g2[i as int]));
        }
        out.push(rr);
        let adde123: i128 = match m123.e {
            Some(x) => x as i128,
            None => 0,
        };
        let adde2: i128 = match m2.e {
            Some(x) => x as i128,
            None => 0,
        };
        sume123 = sume123 + adde123;
        sume2 = sume2 + adde2;
        i = i + 1;
    }
    proof {
        assert(g123.take(n as int) =~= g123);
        assert(g2.take(n as int) =~= g2);
    }
    let result = ResultTable {
        rows: out,
        sn123: PositionFooter { sum: sum123, residual: 50 * (SCALE as i128) - sume123 },
        sn2: PositionFooter { sum: sum2, residual: 50 * (SCALE as i128) - sume2 },
    };
    proof {
        assert(result@.rows =~= expected.rows);
        assert(result@ == expected);
        assert(spec_computable(rows, refs, relative, round));
    }
    Ok(result)
}

/// The clamp law of one metric tuple: a present `A` lies inside the
/// reference range, and equals `B` whenever `B` already lies inside it.
pub open spec fn metrics_clamped(m: Metrics) -> bool {
    m.a is Some ==> {
        &&& m.b is Some && m.min is Some && m.max is Some
        &&& m.min.unwrap() <= m.a.unwrap() <= m.max.unwrap()
        &&& (m.min.unwrap() <= m.b.unwrap() <= m.max.unwrap() ==> m.a.unwrap() == m.b.unwrap())
    }
}

/// The zero-division law of one metric tuple: a zero `A` gives exactly a
/// zero `C`, never an undefined ratio.
pub open spec fn metrics_zero_guard(m: Metrics) -> bool {
    m.a == Some(0i64) ==> m.c == Some(0i64)
}

/// The null-propagation law of one metric tuple: when any of `B`, `min`,
/// `max`, `D` is absent, `A`, `C` and `E` are absent too.
pub open spec fn metrics_null_propagation(m: Metrics) -> bool {
    (m.b is None || m.min is None || m.max is None || m.d is None) ==> m.a is None && m.c is None
        && m.e is None
}

/// The normalization law of one metric tuple: a present `E` is exactly
/// `50 * C * D / sigma` rounded to the raw scale; a zero `sigma` makes `E`
/// absent, and a nonzero `sigma` with a present tuple makes `E` present.
pub open spec fn metrics_share_formula(m: Metrics, sigma: int) -> bool {
    &&& (m.e matches Some(e) ==> m.c is Some && m.d is Some && e == div_round(
        50 * m.c.unwrap() * m.d.unwrap(),
        sigma,
    ))
    &&& (sigma == 0 ==> m.e is None)
    &&& (m.a is Some && sigma != 0 ==> m.e is Some)
}

/// All four row-level laws of one position of one computed row.
proof fn lemma_metrics_laws(
    rows: Seq<SourceRowView>,
    refs: Seq<ReferenceRecordView>,
    relative: bool,
    round: u32,
    i: int,
    position2: bool,
)
    requires
        crate::source::rows_wf(rows),
        crate::reference::records_wf(refs),
        0 <= i < rows.len(),
        cell_ok(
            spec_cells(rows, refs, position2, relative)[i],
            spec_sigma(spec_cells(rows, refs, position2, relative)),
            round,
        ),
    ensures
        ({
            let cells = spec_cells(rows, refs, position2, relative);
            let sigma = spec_sigma(cells);
            let m = spec_metrics(cells[i], sigma, round);
            &&& metrics_clamped(m)
            &&& metrics_zero_guard(m)
            &&& metrics_null_propagation(m)
            &&& metrics_share_formula(m, sigma)
        }),
{
    let cells = spec_cells(rows, refs, position2, relative);
    let sigma = spec_sigma(cells);
    let cell = cells[i];
    let m = spec_metrics(cell, sigma, round);
    assert(cell == spec_cell(rows[i], refs, position2, relative));
    if !cell_null(cell) {
        let b = cell.b.unwrap();
        let mn = cell.min.unwrap();
        let mx = cell.max.unwrap();
        let d = cell.d.unwrap();
        let g = spec_lookup(refs, rows[i].fatty_acid);
        assert(g is Some);
        let j = choose|j: int|
            0 <= j < refs.len() && (#[trigger] refs[j]).fatty_acid == rows[i].fatty_acid;
        assert(0 <= j < refs.len() && refs[j].fatty_acid == rows[i].fatty_acid);
        assert(refs[j].wf());
        assert(g == Some(refs[j]));
        assert(in_limit(mn) && in_limit(mx) && in_limit(d) && mn <= mx);
        assert(in_limit(b));
        let a = spec_a(cell);
        assert(mn <= a <= mx);
        assert(in_limit(a));
        let c = spec_c(cell, round);
        assert(in_limit(c));
        assert(m.a == Some(a as i64) && m.b == Some(b as i64) && m.c == Some(c as i64) && m.d
            == Some(d as i64));
        assert(m.a.unwrap() == a && m.b.unwrap() == b && m.c.unwrap() == c && m.d.unwrap() == d);
        assert(metrics_clamped(m));
        if a == 0 {
            assert(c == 0);
        }
        assert(metrics_zero_guard(m));
        if sigma != 0 {
            let e = spec_e(cell, sigma, round).unwrap();
            assert(in_limit(e));
            assert(m.e == Some(e as i64));
            assert(m.e.unwrap() == e);
            assert(e == div_round(50 * c * d, sigma));
        }
        assert(metrics_share_formula(m, sigma));
    }
}

/// Clamp law (row level): in every computed row of a well-formed,
/// representable computation, a present clamped value `A` lies inside the
/// reference range `[min, max]`, and `A == B` whenever `B` lies inside it.
pub proof fn lemma_clamp_property(
    rows: Seq<SourceRowView>,
    refs: Seq<ReferenceRecordView>,
    relative: bool,
    round: u32,
    i: int,
)
    requires
        crate::source::rows_wf(rows),
        crate::reference::records_wf(refs),
        spec_computable(rows, refs, relative, round),
        0 <= i < rows.len(),
    ensures
        metrics_clamped(spec_compute(rows, refs, relative, round).rows[i].sn123),
        metrics_clamped(spec_compute(rows, refs, relative, round).rows[i].sn2),
{
    lemma_metrics_laws(rows, refs, relative, round, i, false);
    lemma_metrics_laws(rows, refs, relative, round, i, true);
}

/// Zero-division guard (row level): in every computed row, a zero `A` gives
/// exactly a zero `C` — the ratio `|B - A| / A` is never formed with a zero
/// denominator.
pub proof fn lemma_zero_division_guard(
    rows: Seq<SourceRowView>,
    refs: Seq<ReferenceRecordView>,
    relative: bool,
    round: u32,
    i: int,
)
    requires
        crate::source::rows_wf(rows),
        crate::reference::records_wf(refs),
        spec_computable(rows, refs, relative, round),
        0 <= i < rows.len(),
    ensures
        metrics_zero_guard(spec_compute(rows, refs, relative, round).rows[i].sn123),
        metrics_zero_guard(spec_compute(rows, refs, relative, round).rows[i].sn2),
{
    lemma_metrics_laws(rows, refs, relative, round, i, false);
    lemma_metrics_laws(rows, refs, relative, round, i, true);
}

/// Normalization budget (row level): in every computed row, a present `E`
/// equals `50 * C * D / sigma` exactly (rounded to the raw scale), where
/// `sigma` is the dataset-wide sum of the present medians of that position —
/// the very value the footer exposes as `sum`.
pub proof fn lemma_normalization_budget(
    rows: Seq<SourceRowView>,
    refs: Seq<ReferenceRecordView>,
    relative: bool,
    round: u32,
    i: int,
)
    requires
        crate::source::rows_wf(rows),
        crate::reference::records_wf(refs),
        spec_computable(rows, refs, relative, round),
        0 <= i < rows.len(),
    ensures
        metrics_share_formula(
            spec_compute(rows, refs, relative, round).rows[i].sn123,
            spec_sigma(spec_cells(rows, refs, false, relative)),
        ),
        metrics_share_formula(
            spec_compute(rows, refs, relative, round).rows[i].sn2,
            spec_sigma(spec_cells(rows, refs, true, relative)),
        ),
        spec_compute(rows, refs, relative, round).sn123.sum == spec_sigma(
            spec_cells(rows, refs, false, relative),
        ) as i128,
        spec_compute(rows, refs, relative, round).sn2.sum == spec_sigma(
            spec_cells(rows, refs, true, relative),
        ) as i128,
{
    lemma_metrics_laws(rows, refs, relative, round, i, false);
    lemma_metrics_laws(rows, refs, relative, round, i, true);
}

/// Null propagation (row level): in every computed row, a position with any
/// of `B`, `min`, `max`, `D` absent has `A`, `C` and `E` absent; and when a
/// position's sum of medians is zero, its `E` is absent in every row.
pub proof fn lemma_null_propagation(
    rows: Seq<SourceRowView>,
    refs: Seq<ReferenceRecordView>,
    relative: bool,
    round: u32,
    i: int,
)
    requires
        crate::source::rows_wf(rows),
        crate::reference::records_wf(refs),
        spec_computable(rows, refs, relative, round),
        0 <= i < rows.len(),
    ensures
        metrics_null_propagation(spec_compute(rows, refs, relative, round).rows[i].sn123),
        metrics_null_propagation(spec_compute(rows, refs, relative, round).rows[i].sn2),
        spec_sigma(spec_cells(rows, refs, false, relative)) == 0 ==> spec_compute(
            rows,
            refs,
            relative,
            round,
        ).rows[i].sn123.e is None,
        spec_sigma(spec_cells(rows, refs, true, relative)) == 0 ==> spec_compute(
            rows,
            refs,
            relative,
            round,
        ).rows[i].sn2.e is None,
{
    lemma_metrics_laws(rows, refs, relative, round, i, false);
    lemma_metrics_laws(rows, refs, relative, round, i, true);
}

/// Purity: the computation is a function of the table content, the reference
/// content and the settings alone, so two computations over equal content
/// yield equal result tables — which is what makes the memoization of
/// [`crate::cache::Cache`] sound.
pub proof fn lemma_compute_pure(
    t1: ResultTableView,
    t2: ResultTableView,
    rows: Seq<SourceRowView>,
    refs: Seq<ReferenceRecordView>,
    relative: bool,
    round: u32,
)
    requires
        t1 == spec_compute(rows, refs, relative, round),
        t2 == spec_compute(rows, refs, relative, round),
    ensures
        t1 == t2,
{
}

} // verus!
