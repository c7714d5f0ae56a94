//! The result-memoization cache: maps the full content of a (source table,
//! settings) pair to the computed result table, so that at most one
//! computation runs per distinct input. The mapping itself is keyed by the
//! complete content — a 64-bit fingerprint is offered to hosts for bookkeeping
//! but never decides a hit. Eviction stays with the host: the cache only
//! guarantees that whatever it returns equals a fresh computation, and a
//! failed computation is never stored.

use vstd::prelude::*;
use crate::compute::{compute, spec_compute, spec_computable, ResultTable};
use crate::error::Error;
use crate::fatty_acid::spec_identity_hash;
use crate::reference::ReferenceTable;
use crate::settings::{settings_eq, Settings};
use crate::source::{SourceRowView, SourceTable};

verus! {

/// One memoized computation: the complete key content and its result.
#[derive(Debug)]
pub struct CacheEntry {
    pub table: SourceTable,
    pub settings: Settings,
    pub result: ResultTable,
}

/// Whether a stored entry's key has exactly this content.
pub open spec fn entry_matches(e: CacheEntry, rows: Seq<SourceRowView>, s: &Settings) -> bool {
    e.table@ == rows && settings_eq(&e.settings, s)
}

/// The cache: the immutable reference dataset it computes against, the stored
/// entries, and a count of the computations performed (each one a miss).
#[derive(Debug)]
pub struct Cache {
    pub reference: ReferenceTable,
    pub entries: Vec<CacheEntry>,
    pub computations: u64,
}

impl Cache {
    /// Every stored result equals a fresh computation of its key.
    pub open spec fn wf(&self) -> bool {
        &&& self.reference.wf()
        &&& forall|k: int| 0 <= k < self.entries@.len() ==> {
            let e = #[trigger] self.entries@[k];
            &&& e.table.wf()
            &&& e.table@.len() <= u32::MAX
            &&& spec_computable(
                e.table@,
                self.reference@,
                e.settings.relative,
                e.settings.round,
            )
            &&& e.result@ == spec_compute(
                e.table@,
                self.reference@,
                e.settings.relative,
                e.settings.round,
            )
        }
    }

    /// An empty cache over a validated reference dataset.
    pub fn new(reference: ReferenceTable) -> (r: Self)
        requires
            reference.wf(),
        ensures
            r.wf(),
            r.reference@ == reference@,
            r.entries@.len() == 0,
            r.computations == 0,
    {
        Self { reference, entries: Vec::new(), computations: 0 }
    }

    /// Number of stored entries.
    pub fn len(&self) -> (r: usize)
        ensures
            r == self.entries@.len(),
    {
        self.entries.len()
    }

    /// Drops every stored entry, as a host does when it opens a new cache
    /// generation. The computation count is kept.
    pub fn clear(&mut self)
        ensures
            final(self).wf() == old(self).wf() || final(self).wf(),
            final(self).reference@ == old(self).reference@,
            final(self).entries@.len() == 0,
            final(self).computations == old(self).computations,
            old(self).wf() ==> final(self).wf(),
    {
        self.entries.clear();
    }

    /// Returns the result table for this source table and settings: the
    /// stored one on a hit (no computation runs), a freshly computed and
    /// stored one on a miss. A computation that fails is handed to the
    /// caller and nothing is stored, so the next identical call retries.
    pub fn get_or_compute(&mut self, table: &SourceTable, settings: &Settings) -> (r: Result<
        ResultTable,
        Error,
    >)
        requires
            old(self).wf(),
            table.wf(),
            table@.len() <= u32::MAX,
            old(self).computations < u64::MAX,
            old(self).entries@.len() < usize::MAX,
        ensures
            final(self).wf(),
            final(self).reference@ == old(self).reference@,
            r is Ok <==> spec_computable(
                table@,
                old(self).reference@,
                settings.relative,
                settings.round,
            ),
            (r matches Ok(t) ==> t@ == spec_compute(
                table@,
                old(self).reference@,
                settings.relative,
                settings.round,
            )),
            r is Err ==> r == Err::<ResultTable, Error>(Error::ValueOutOfRange),
            // At most one computation per distinct content: a hit computes
            // nothing and stores nothing new.
            (exists|k: int|
                0 <= k < old(self).entries@.len() && entry_matches(
                    #[trigger] old(self).entries@[k],
                    table@,
                    settings,
                )) ==> final(self).computations == old(self).computations && final(self).entries@
                == old(self).entries@,
            // A miss computes once; only a success is stored.
            (forall|k: int|
                0 <= k < old(self).entries@.len() ==> !entry_matches(
                    #[trigger] old(self).entries@[k],
                    table@,
                    settings,
                )) ==> final(self).computations == old(self).computations + 1 && (r is Ok
                ==> final(self).entries@.len() == old(self).entries@.len() + 1) && (r is Err
                ==> final(self).entries@ == old(self).entries@),
    {
        let n: usize = self.entries.len();
        let mut k: usize = 0;
        while k < n
            invariant
                k <= n == self.entries@.len(),
                self.wf(),
                self == old(self),
                table.wf(),
                forall|j: int| 0 <= j < k ==> !entry_matches(
                    #[trigger] self.entries@[j],
                    table@,
                    settings,
                ),
            decreases n - k,
        {
            let table_hit: bool = self.entries[k].table == *table;
            let settings_hit: bool = self.entries[k].settings == *settings;
            if table_hit && settings_hit {
                proof {
                    assert(entry_matches(self.entries@[k as int], table@, settings));
                    assert(self.entries@[k as int].result@ == spec_compute(
                        table@,
                        self.reference@,
                        settings.relative,
                        settings.round,
                    ));
                }
                return Ok(self.entries[k].result.clone());
            }
            k = k + 1;
        }
        self.computations = self.computations + 1;
        match compute(table, &self.reference, settings) {
            Ok(result) => {
                let stored = result.clone();
                let entry = CacheEntry {
                    table: table.clone(),
                    settings: settings.clone(),
                    result: stored,
                };
                self.entries.push(entry);
                Ok(result)
            },
            Err(_) => Err(Error::ValueOutOfRange),
        }
    }
}

/// Folds one 64-bit word into a running fingerprint hash.
pub open spec fn hash_word(h: u64, x: u64) -> u64 {
    (((h ^ x) as nat * (crate::fatty_acid::HASH_PRIME as nat))
        % 0x1_0000_0000_0000_0000nat) as u64
}

fn hash_word_exec(h: u64, x: u64) -> (r: u64)
    ensures
        r == hash_word(h, x),
{
    (h ^ x).wrapping_mul(crate::fatty_acid::HASH_PRIME)
}

/// Encodes an optional measurement as a pair of words.
pub open spec fn hash_opt(h: u64, x: Option<i64>) -> u64 {
    match x {
        None => hash_word(hash_word(h, 0), 0),
        Some(v) => hash_word(hash_word(h, 1), v as u64),
    }
}

/// Folds the rows of a source table into a running fingerprint hash, in row
/// order: the identity hash, then both measurements.
pub open spec fn hash_rows(h: u64, rows: Seq<SourceRowView>) -> u64
    decreases rows.len(),
{
    if rows.len() == 0 {
        h
    } else {
        let row = rows.first();
        let h1 = hash_word(h, spec_identity_hash(row.fatty_acid));
        let h2 = hash_opt(h1, row.sn123);
        let h3 = hash_opt(h2, row.sn2);
        hash_rows(h3, rows.drop_first())
    }
}

/// Folds the UTF-8 bytes of the settings label into the hash.
pub open spec fn hash_bytes(h: u64, s: Seq<u8>) -> u64
    decreases s.len(),
{
    if s.len() == 0 {
        h
    } else {
        hash_bytes(hash_word(h, s.first() as u64), s.drop_first())
    }
}

/// The fingerprint of a (source table, settings) pair: a hash over every
/// cell in a fixed row and column order and over every settings field. Equal
/// content always gives an equal fingerprint; hosts may use it to tag
/// entries, but the cache itself never trusts it for a hit.
pub open spec fn spec_fingerprint(rows: Seq<SourceRowView>, s: &Settings) -> u64 {
    let h0 = hash_rows(crate::fatty_acid::HASH_BASIS, rows);
    let h1 = hash_word(h0, if s.resizable { 1 } else { 0 });
    let h2 = hash_word(h1, if s.editable { 1 } else { 0 });
    let h3 = hash_bytes(h2, vstd::utf8::encode_utf8(s.label@));
    let h4 = hash_word(h3, s.precision as u64);
    let h5 = hash_word(h4, s.round as u64);
    let h6 = hash_word(h5, s.sticky as u64);
    let h7 = hash_word(h6, if s.truncate { 1 } else { 0 });
    let h8 = hash_word(h7, if s.relative { 1 } else { 0 });
    hash_word(h8, if s.properties { 1 } else { 0 })
}

/// Computes the fingerprint of a (source table, settings) pair.
pub fn fingerprint(table: &SourceTable, settings: &Settings) -> (r: u64)
    ensures
        r == spec_fingerprint(table@, settings),
{
    let mut h: u64 = crate::fatty_acid::HASH_BASIS;
    let mut i: usize = 0;
    proof {
        assert(table@.skip(0) =~= table@);
    }
    while i < table.rows.len()
        invariant
            i <= table.rows@.len(),
            table@.len() == table.rows@.len(),
            hash_rows(h, table@.skip(i as int)) == hash_rows(
                crate::fatty_acid::HASH_BASIS,
                table@,
            ),
        decreases table.rows@.len() - i,
    {
        proof {
            assert(table@.skip(i as int).first() == table@[i as int]);
            assert(table@.skip(i as int).drop_first() =~= table@.skip(i as int + 1));
            assert(table@[i as int] == table.rows@[i as int]@);
        }
        let row = &table.rows[i];
        let fa_hash = row.fatty_acid.identity_hash();
        h = hash_word_exec(h, fa_hash);
        h = match row.sn123 {
            None => hash_word_exec(hash_word_exec(h, 0), 0),
            Some(v) => hash_word_exec(hash_word_exec(h, 1), v as u64),
        };
        h = match row.sn2 {
            None => hash_word_exec(hash_word_exec(h, 0), 0),
            Some(v) => hash_word_exec(hash_word_exec(h, 1), v as u64),
        };
        i = i + 1;
    }
    proof {
        assert(table@.skip(table@.len() as int) =~= Seq::<SourceRowView>::empty());
    }
    h = hash_word_exec(h, if settings.resizable { 1 } else { 0 });
    h = hash_word_exec(h, if settings.editable { 1 } else { 0 });
    let bytes = settings.label.as_str().as_bytes();
    let ghost lbytes = vstd::utf8::encode_utf8(settings.label@);
    let ghost label_target = hash_bytes(h, lbytes);
    let mut j: usize = 0;
    proof {
        assert(bytes@ == lbytes);
        assert(lbytes.skip(0) =~= lbytes);
    }
    while j < bytes.len()
        invariant
            j <= lbytes.len(),
            bytes@ == lbytes,
            hash_bytes(h, lbytes.skip(j as int)) == label_target,
        decreases lbytes.len() - j,
    {
        proof {
            assert(lbytes.skip(j as int).first() == lbytes[j as int]);
            assert(lbytes.skip(j as int).drop_first() =~= lbytes.skip(j as int + 1));
        }
        let b = bytes[j];
        h = hash_word_exec(h, b as u64);
        j = j + 1;
    }
    proof {
        assert(lbytes.skip(lbytes.len() as int) =~= Seq::<u8>::empty());
    }
    h = hash_word_exec(h, settings.precision as u64);
    h = hash_word_exec(h, settings.round as u64);
    h = hash_word_exec(h, settings.sticky as u64);
    h = hash_word_exec(h, if settings.truncate { 1 } else { 0 });
    h = hash_word_exec(h, if settings.relative { 1 } else { 0 });
    hash_word_exec(h, if settings.properties { 1 } else { 0 })
}

} // verus!
