//! The immutable reference dataset: per fatty-acid identity and per
//! stereospecific position, a median, an interquartile range and a reference
//! range. Loaded once, validated once (duplicate identities are rejected
//! then, never tolerated by the join), and consumed read-only.

use vstd::prelude::*;
use crate::error::Error;
use crate::fatty_acid::{FattyAcid, FattyAcidView, spec_identity_hash};
use crate::numeric::in_limit;

verus! {

/// Summary statistics of one identity at one stereospecific position.
/// Every field may be absent; absent fields make the joined row's metrics
/// null instead of failing.
#[derive(Clone, Copy, Debug)]
pub struct ReferenceEntry {
    /// Median of the literature distribution, the metric `D`.
    pub median: Option<i64>,
    /// Interquartile range, carried through for presentation.
    pub interquartile_range: Option<i64>,
    /// Lower bound of the reference range.
    pub min: Option<i64>,
    /// Upper bound of the reference range.
    pub max: Option<i64>,
}

impl ReferenceEntry {
    /// Values are representable and the range is ordered.
    pub open spec fn wf(&self) -> bool {
        &&& (self.median matches Some(m) ==> in_limit(m as int))
        &&& (self.interquartile_range matches Some(q) ==> in_limit(q as int))
        &&& (self.min matches Some(mn) ==> in_limit(mn as int))
        &&& (self.max matches Some(mx) ==> in_limit(mx as int))
        &&& (self.min is Some && self.max is Some ==> self.min.unwrap() <= self.max.unwrap())
    }

    /// Executable check of [`ReferenceEntry::wf`].
    pub fn check_wf(&self) -> (r: bool)
        ensures
            r == self.wf(),
    {
        let median_ok: bool = match self.median {
            None => true,
            Some(m) => -crate::numeric::VALUE_LIMIT <= m && m <= crate::numeric::VALUE_LIMIT,
        };
        let iqr_ok: bool = match self.interquartile_range {
            None => true,
            Some(q) => -crate::numeric::VALUE_LIMIT <= q && q <= crate::numeric::VALUE_LIMIT,
        };
        let min_ok: bool = match self.min {
            None => true,
            Some(mn) => -crate::numeric::VALUE_LIMIT <= mn && mn <= crate::numeric::VALUE_LIMIT,
        };
        let max_ok: bool = match self.max {
            None => true,
            Some(mx) => -crate::numeric::VALUE_LIMIT <= mx && mx <= crate::numeric::VALUE_LIMIT,
        };
        let range_ok: bool = match (self.min, self.max) {
            (Some(mn), Some(mx)) => mn <= mx,
            _ => true,
        };
        median_ok && iqr_ok && min_ok && max_ok && range_ok
    }
}

/// One reference record: an identity with its statistics at both positions.
#[derive(Debug)]
pub struct ReferenceRecord {
    pub fatty_acid: FattyAcid,
    pub sn123: ReferenceEntry,
    pub sn2: ReferenceEntry,
}

/// The mathematical value of one reference record.
pub struct ReferenceRecordView {
    pub fatty_acid: FattyAcidView,
    pub sn123: ReferenceEntry,
    pub sn2: ReferenceEntry,
}

impl View for ReferenceRecord {
    type V = ReferenceRecordView;

    open spec fn view(&self) -> ReferenceRecordView {
        ReferenceRecordView { fatty_acid: self.fatty_acid@, sn123: self.sn123, sn2: self.sn2 }
    }
}

impl ReferenceRecordView {
    /// Both entries are well-formed.
    pub open spec fn wf(&self) -> bool {
        self.sn123.wf() && self.sn2.wf()
    }
}

/// Every record of the sequence is well-formed.
pub open spec fn records_wf(s: Seq<ReferenceRecordView>) -> bool {
    forall|i: int| 0 <= i < s.len() ==> (#[trigger] s[i]).wf()
}

/// No two records share one fatty-acid identity.
pub open spec fn no_duplicate_identity(s: Seq<ReferenceRecordView>) -> bool {
    forall|i: int, j: int| 0 <= i < j < s.len() ==> (#[trigger] s[i]).fatty_acid != (
    #[trigger] s[j]).fatty_acid
}

/// The validated reference dataset, with a cached content hash per record
/// that the join uses as a pre-filter (never as the match itself).
#[derive(Debug)]
pub struct ReferenceTable {
    pub records: Vec<ReferenceRecord>,
    pub hashes: Vec<u64>,
}

impl View for ReferenceTable {
    type V = Seq<ReferenceRecordView>;

    open spec fn view(&self) -> Seq<ReferenceRecordView> {
        self.records@.map_values(|r: ReferenceRecord| r@)
    }
}

impl ReferenceTable {
    /// Validation established at load time and relied on by the join.
    pub open spec fn wf(&self) -> bool {
        &&& self.hashes@.len() == self@.len()
        &&& forall|i: int| 0 <= i < self@.len() ==> (#[trigger] self.hashes@[i])
            == spec_identity_hash(self@[i].fatty_acid)
        &&& records_wf(self@)
        &&& no_duplicate_identity(self@)
    }

    /// Number of reference records.
    pub fn len(&self) -> (r: usize)
        ensures
            r == self@.len(),
    {
        self.records.len()
    }

    /// Builds the dataset, failing fast on a malformed entry or a duplicated
    /// identity. Succeeds exactly on well-formed, duplicate-free input.
    pub fn new(records: Vec<ReferenceRecord>) -> (r: Result<ReferenceTable, Error>)
        ensures
            r is Ok <==> records_wf(records@.map_values(|x: ReferenceRecord| x@))
                && no_duplicate_identity(records@.map_values(|x: ReferenceRecord| x@)),
            (r matches Ok(t) ==> t.wf() && t@ == records@.map_values(
                |x: ReferenceRecord| x@,
            )),
            !records_wf(records@.map_values(|x: ReferenceRecord| x@)) ==> r == Err::<
                ReferenceTable,
                Error,
            >(Error::ValueOutOfRange),
            records_wf(records@.map_values(|x: ReferenceRecord| x@)) && !no_duplicate_identity(
                records@.map_values(|x: ReferenceRecord| x@),
            ) ==> r == Err::<ReferenceTable, Error>(Error::DuplicateReference),
    {
        let ghost rv = records@.map_values(|x: ReferenceRecord| x@);
        let n: usize = records.len();
        let mut k: usize = 0;
        while k < n
            invariant
                k <= n == records@.len(),
                rv == records@.map_values(|x: ReferenceRecord| x@),
                forall|i: int| 0 <= i < k ==> (#[trigger] rv[i]).wf(),
            decreases n - k,
        {
            let ok123 = records[k].sn123.check_wf();
            let ok2 = records[k].sn2.check_wf();
            if !(ok123 && ok2) {
                proof {
                    assert(!rv[k as int].wf());
                }
                return Err(Error::ValueOutOfRange);
            }
            k = k + 1;
        }
        let mut hashes: Vec<u64> = Vec::new();
        let mut k: usize = 0;
        while k < n
            invariant
                k <= n == records@.len(),
                rv == records@.map_values(|x: ReferenceRecord| x@),
                hashes@.len() == k,
                forall|i: int| 0 <= i < k ==> (#[trigger] hashes@[i]) == spec_identity_hash(
                    rv[i].fatty_acid,
                ),
            decreases n - k,
        {
            let h = records[k].fatty_acid.identity_hash();
            hashes.push(h);
            k = k + 1;
        }
        let mut i: usize = 0;
        while i < n
            invariant
                i <= n == records@.len(),
                rv == records@.map_values(|x: ReferenceRecord| x@),
                records_wf(rv),
                hashes@.len() == n,
                forall|p: int| 0 <= p < n ==> (#[trigger] hashes@[p]) == spec_identity_hash(
                    rv[p].fatty_acid,
                ),
                forall|p: int, q: int| 0 <= p < q < i ==> (#[trigger] rv[p]).fatty_acid != (
                #[trigger] rv[q]).fatty_acid,
            decreases n - i,
        {
            let mut j: usize = 0;
            while j < i
                invariant
                    j <= i < n == records@.len(),
                    rv == records@.map_values(|x: ReferenceRecord| x@),
                    records_wf(rv),
                    hashes@.len() == n,
                    forall|p: int| 0 <= p < n ==> (#[trigger] hashes@[p]) == spec_identity_hash(
                        rv[p].fatty_acid,
                    ),
                    forall|p: int| 0 <= p < j ==> (#[trigger] rv[p]).fatty_acid != rv[
                        i as int
                    ].fatty_acid,
                decreases i - j,
            {
                if hashes[j] == hashes[i] {
                    if records[j].fatty_acid == records[i].fatty_acid {
                        proof {
                            assert(rv[j as int].fatty_acid == rv[i as int].fatty_acid);
                        }
                        return Err(Error::DuplicateReference);
                    }
                }
                j = j + 1;
            }
            i = i + 1;
        }
        let r = ReferenceTable { records, hashes };
        proof {
            assert(r@ == rv);
        }
        Ok(r)
    }

    /// The join: finds the reference record with this structural identity, or
    /// nothing when the identity is absent. The cached hashes only let the
    /// scan skip records whose identity provably differs; every reported
    /// match is confirmed by full structural equality.
    pub fn lookup(&self, fatty_acid: &FattyAcid) -> (r: Option<&ReferenceRecord>)
        requires
            self.wf(),
        ensures
            (r matches Some(rec) ==> rec.fatty_acid@ == fatty_acid@ && exists|i: int|
                0 <= i < self@.len() && #[trigger] self@[i] == rec@),
            (r is None ==> forall|i: int| 0 <= i < self@.len() ==> (
            #[trigger] self@[i]).fatty_acid != fatty_acid@),
    {
        let h = fatty_acid.identity_hash();
        let n: usize = self.records.len();
        let mut i: usize = 0;
        while i < n
            invariant
                i <= n == self@.len(),
                self.wf(),
                h == spec_identity_hash(fatty_acid@),
                forall|p: int| 0 <= p < i ==> (#[trigger] self@[p]).fatty_acid != fatty_acid@,
            decreases n - i,
        {
            if self.hashes[i] == h {
                if self.records[i].fatty_acid == *fatty_acid {
                    proof {
                        assert(self@[i as int] == self.records@[i as int]@);
                    }
                    return Some(&self.records[i]);
                }
            }
            i = i + 1;
        }
        None
    }
}

} // verus!
