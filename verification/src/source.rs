//! The editable source table: one row per experimental observation, holding
//! the fatty-acid identity and the measured values at the two stereospecific
//! positions. Edits replace one cell at a time and never leave a row
//! partially formed.

use vstd::prelude::*;
use crate::fatty_acid::{FattyAcid, FattyAcidView, Unsaturated};
use crate::numeric::in_limit;

verus! {

/// One experimental observation.
#[derive(Debug)]
pub struct SourceRow {
    pub fatty_acid: FattyAcid,
    /// Measured value over positions 1, 2 and 3.
    pub sn123: Option<i64>,
    /// Measured value at position 2.
    pub sn2: Option<i64>,
}

/// The mathematical value of one source row.
pub struct SourceRowView {
    pub fatty_acid: FattyAcidView,
    pub sn123: Option<i64>,
    pub sn2: Option<i64>,
}

impl View for SourceRow {
    type V = SourceRowView;

    open spec fn view(&self) -> SourceRowView {
        SourceRowView { fatty_acid: self.fatty_acid@, sn123: self.sn123, sn2: self.sn2 }
    }
}

impl SourceRowView {
    /// Present measurements are representable.
    pub open spec fn wf(&self) -> bool {
        &&& (self.sn123 matches Some(v) ==> in_limit(v as int))
        &&& (self.sn2 matches Some(v) ==> in_limit(v as int))
    }
}

/// Every row of the sequence is well-formed.
pub open spec fn rows_wf(s: Seq<SourceRowView>) -> bool {
    forall|i: int| 0 <= i < s.len() ==> (#[trigger] s[i]).wf()
}

/// The editable source table.
#[derive(Debug)]
pub struct SourceTable {
    pub rows: Vec<SourceRow>,
}

impl View for SourceTable {
    type V = Seq<SourceRowView>;

    open spec fn view(&self) -> Seq<SourceRowView> {
        self.rows@.map_values(|r: SourceRow| r@)
    }
}

impl SourceTable {
    /// All rows are well-formed.
    pub open spec fn wf(&self) -> bool {
        rows_wf(self@)
    }

    /// An empty table.
    pub fn new() -> (r: Self)
        ensures
            r@ =~= Seq::<SourceRowView>::empty(),
            r.wf(),
    {
        Self { rows: Vec::new() }
    }

    /// Number of rows.
    pub fn height(&self) -> (r: usize)
        ensures
            r == self@.len(),
    {
        self.rows.len()
    }

    /// Appends a blank row: a zero-carbon identity without descriptors and
    /// zero measurements.
    pub fn add_row(&mut self)
        requires
            old(self)@.len() < usize::MAX,
        ensures
            final(self)@.len() == old(self)@.len() + 1,
            final(self)@.subrange(0, old(self)@.len() as int) == old(self)@,
            final(self)@.last().fatty_acid.carbons == 0,
            final(self)@.last().fatty_acid.unsaturated == Seq::<Unsaturated>::empty(),
            final(self)@.last().sn123 == Some(0i64),
            final(self)@.last().sn2 == Some(0i64),
            old(self).wf() ==> final(self).wf(),
    {
        let row = SourceRow { fatty_acid: FattyAcid::new(0), sn123: Some(0), sn2: Some(0) };
        self.rows.push(row);
        proof {
            assert(final(self)@ =~= old(self)@.push(
                SourceRowView {
                    fatty_acid: FattyAcidView {
                        carbons: 0,
                        unsaturated: Seq::<Unsaturated>::empty(),
                    },
                    sn123: Some(0i64),
                    sn2: Some(0i64),
                },
            ));
            assert(final(self)@.subrange(0, old(self)@.len() as int) =~= old(self)@);
        }
    }

    /// Removes one row, keeping all others in order.
    pub fn delete_row(&mut self, row: usize)
        requires
            row < old(self)@.len(),
        ensures
            final(self)@ == old(self)@.remove(row as int),
            old(self).wf() ==> final(self).wf(),
    {
        self.rows.remove(row);
        proof {
            assert(final(self)@ =~= old(self)@.remove(row as int));
        }
    }

    /// Replaces the fatty-acid identity of one row, keeping its measurements.
    pub fn set_fatty_acid(&mut self, row: usize, fatty_acid: FattyAcid)
        requires
            row < old(self)@.len(),
        ensures
            final(self)@ == old(self)@.update(
                row as int,
                (SourceRowView {
                    fatty_acid: fatty_acid@,
                    sn123: old(self)@[row as int].sn123,
                    sn2: old(self)@[row as int].sn2,
                }),
            ),
            old(self).wf() ==> final(self).wf(),
    {
        let old_row = self.rows.remove(row);
        let new_row = SourceRow { fatty_acid, sn123: old_row.sn123, sn2: old_row.sn2 };
        self.rows.insert(row, new_row);
        proof {
            lemma_row_update(old(self).rows@, final(self).rows@, new_row, row as int);
        }
    }

    /// Replaces the position-123 measurement of one row.
    pub fn set_sn123(&mut self, row: usize, value: Option<i64>)
        requires
            row < old(self)@.len(),
            value matches Some(v) ==> in_limit(v as int),
        ensures
            final(self)@ == old(self)@.update(
                row as int,
                (SourceRowView {
                    fatty_acid: old(self)@[row as int].fatty_acid,
                    sn123: value,
                    sn2: old(self)@[row as int].sn2,
                }),
            ),
            old(self).wf() ==> final(self).wf(),
    {
        let old_row = self.rows.remove(row);
        let new_row = SourceRow { fatty_acid: old_row.fatty_acid, sn123: value, sn2: old_row.sn2 };
        self.rows.insert(row, new_row);
        proof {
            lemma_row_update(old(self).rows@, final(self).rows@, new_row, row as int);
        }
    }

    /// Replaces the position-2 measurement of one row.
    pub fn set_sn2(&mut self, row: usize, value: Option<i64>)
        requires
            row < old(self)@.len(),
            value matches Some(v) ==> in_limit(v as int),
        ensures
            final(self)@ == old(self)@.update(
                row as int,
                (SourceRowView {
                    fatty_acid: old(self)@[row as int].fatty_acid,
                    sn123: old(self)@[row as int].sn123,
                    sn2: value,
                }),
            ),
            old(self).wf() ==> final(self).wf(),
    {
        let old_row = self.rows.remove(row);
        let new_row = SourceRow { fatty_acid: old_row.fatty_acid, sn123: old_row.sn123, sn2: value };
        self.rows.insert(row, new_row);
        proof {
            lemma_row_update(old(self).rows@, final(self).rows@, new_row, row as int);
        }
    }
}

/// After a remove-then-insert at `row`, the view is the old view with `row`
/// updated, and well-formedness carries over when the new row is well-formed.
proof fn lemma_row_update(rows_before: Seq<SourceRow>, rows_after: Seq<SourceRow>, nr: SourceRow, row: int)
    requires
        0 <= row < rows_before.len(),
        rows_after == rows_before.remove(row).insert(row, nr),
    ensures
        rows_after.map_values(|r: SourceRow| r@) == rows_before.map_values(
            |r: SourceRow| r@,
        ).update(row, nr@),
        rows_wf(rows_before.map_values(|r: SourceRow| r@)) && nr@.wf() ==> rows_wf(
            rows_after.map_values(|r: SourceRow| r@),
        ),
{
    let before = rows_before.map_values(|r: SourceRow| r@);
    let after = rows_after.map_values(|r: SourceRow| r@);
    assert(rows_after.len() == rows_before.len());
    assert forall|i: int| 0 <= i < after.len() implies after[i] == before.update(row, nr@)[i] by {
        if i < row {
            assert(rows_after[i] == rows_before.remove(row)[i]);
            assert(rows_before.remove(row)[i] == rows_before[i]);
        } else if i > row {
            assert(rows_after[i] == rows_before.remove(row)[i - 1]);
            assert(rows_before.remove(row)[i - 1] == rows_before[i]);
        } else {
            assert(rows_after[i] == nr);
        }
    }
    assert(after =~= before.update(row, nr@));
    if rows_wf(before) && nr@.wf() {
        assert forall|i: int| 0 <= i < after.len() implies (#[trigger] after[i]).wf() by {
            if i != row {
                assert(after[i] == before[i]);
            }
        }
    }
}

impl PartialEq for SourceRow {
    fn eq(&self, other: &SourceRow) -> (r: bool) {
        let fa_eq: bool = self.fatty_acid == other.fatty_acid;
        let sn123_eq: bool = match (self.sn123, other.sn123) {
            (None, None) => true,
            (Some(x), Some(y)) => x == y,
            _ => false,
        };
        let sn2_eq: bool = match (self.sn2, other.sn2) {
            (None, None) => true,
            (Some(x), Some(y)) => x == y,
            _ => false,
        };
        fa_eq && sn123_eq && sn2_eq
    }
}

impl vstd::std_specs::cmp::PartialEqSpecImpl for SourceRow {
    open spec fn obeys_eq_spec() -> bool {
        true
    }

    open spec fn eq_spec(&self, other: &SourceRow) -> bool {
        self@ == other@
    }
}

impl Eq for SourceRow {}

impl PartialEq for SourceTable {
    fn eq(&self, other: &SourceTable) -> (r: bool) {
        if self.rows.len() != other.rows.len() {
            proof {
                assert(self@.len() != other@.len());
            }
            return false;
        }
        let mut i: usize = 0;
        while i < self.rows.len()
            invariant
                i <= self.rows@.len(),
                self.rows@.len() == other.rows@.len(),
                forall|j: int| 0 <= j < i ==> self.rows@[j]@ == other.rows@[j]@,
            decreases self.rows@.len() - i,
        {
            if !(self.rows[i] == other.rows[i]) {
                proof {
                    assert(self.rows@[i as int]@ != other.rows@[i as int]@);
                    assert(self@[i as int] == self.rows@[i as int]@);
                    assert(other@[i as int] == other.rows@[i as int]@);
                    assert(self@ != other@);
                }
                return false;
            }
            i = i + 1;
        }
        proof {
            assert(self@ =~= other@);
        }
        true
    }
}

impl vstd::std_specs::cmp::PartialEqSpecImpl for SourceTable {
    open spec fn obeys_eq_spec() -> bool {
        true
    }

    open spec fn eq_spec(&self, other: &SourceTable) -> bool {
        self@ == other@
    }
}

impl Eq for SourceTable {}

impl Clone for SourceRow {
    fn clone(&self) -> (r: Self)
        ensures
            r@ == self@,
    {
        let fatty_acid = self.fatty_acid.clone();
        Self { fatty_acid, sn123: self.sn123, sn2: self.sn2 }
    }
}

impl Clone for SourceTable {
    fn clone(&self) -> (r: Self)
        ensures
            r@ == self@,
    {
        let mut rows: Vec<SourceRow> = Vec::new();
        let mut i: usize = 0;
        while i < self.rows.len()
            invariant
                i <= self.rows@.len(),
                rows@.len() == i,
                forall|j: int| 0 <= j < i ==> (#[trigger] rows@[j])@ == self.rows@[j]@,
            decreases self.rows@.len() - i,
        {
            let row = self.rows[i].clone();
            rows.push(row);
            i = i + 1;
        }
        let r = Self { rows };
        proof {
            assert(r@ =~= self@);
        }
        r
    }
}

} // verus!
