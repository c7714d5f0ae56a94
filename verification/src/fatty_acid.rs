//! Structural identity of a fatty acid: a carbon count together with an
//! ordered list of unsaturation descriptors. The identity is the join key
//! between measured records and the reference dataset, so its equality is
//! fully structural and a content hash is provided as a join pre-filter.

use vstd::prelude::*;

verus! {

/// Geometry of one unsaturated bond.
#[derive(Clone, Copy, Debug, PartialEq, Eq, Structural)]
pub enum Isomerism {
    Cis,
    Trans,
}

impl Isomerism {
    /// Signed encoding of the geometry: cis is positive, trans is negative.
    pub open spec fn spec_signum(self) -> i8 {
        match self {
            Isomerism::Cis => 1i8,
            Isomerism::Trans => -1i8,
        }
    }

    /// Decodes a signed value; zero encodes no known geometry.
    pub fn try_from(value: i8) -> (r: Result<Isomerism, i8>)
        ensures
            value > 0 ==> r == Ok::<Isomerism, i8>(Isomerism::Cis),
            value < 0 ==> r == Ok::<Isomerism, i8>(Isomerism::Trans),
            value == 0 ==> r == Err::<Isomerism, i8>(value),
    {
        if value > 0 {
            Ok(Isomerism::Cis)
        } else if value < 0 {
            Ok(Isomerism::Trans)
        } else {
            Err(value)
        }
    }
}

impl core::convert::From<Isomerism> for i8 {
    fn from(value: Isomerism) -> (r: i8)
        ensures
            r == value.spec_signum(),
    {
        match value {
            Isomerism::Cis => 1,
            Isomerism::Trans => -1,
        }
    }
}

impl vstd::std_specs::convert::FromSpecImpl<Isomerism> for i8 {
    open spec fn obeys_from_spec() -> bool {
        true
    }

    open spec fn from_spec(value: Isomerism) -> i8 {
        value.spec_signum()
    }
}

/// Bond order of one unsaturated bond beyond a single bond.
#[derive(Clone, Copy, Debug, PartialEq, Eq, Structural)]
pub enum Unsaturation {
    One,
    Two,
}

impl Unsaturation {
    /// Numeric encoding of the bond order.
    pub open spec fn spec_weight(self) -> u8 {
        match self {
            Unsaturation::One => 1u8,
            Unsaturation::Two => 2u8,
        }
    }

    /// Decodes the numeric encoding.
    pub fn try_from(value: u8) -> (r: Result<Unsaturation, u8>)
        ensures
            value == 1 ==> r == Ok::<Unsaturation, u8>(Unsaturation::One),
            value == 2 ==> r == Ok::<Unsaturation, u8>(Unsaturation::Two),
            value != 1 && value != 2 ==> r == Err::<Unsaturation, u8>(value),
    {
        match value {
            1u8 => Ok(Unsaturation::One),
            2u8 => Ok(Unsaturation::Two),
            _ => Err(value),
        }
    }
}

impl Default for Unsaturation {
    fn default() -> (r: Self)
        ensures
            r == Unsaturation::One,
    {
        Unsaturation::One
    }
}

/// One unsaturated bond: its position along the chain, its geometry and its
/// bond order, each possibly unknown.
#[derive(Clone, Copy, Debug)]
pub struct Unsaturated {
    pub index: Option<u8>,
    pub isomerism: Option<Isomerism>,
    pub unsaturation: Option<Unsaturation>,
}

impl PartialEq for Unsaturated {
    fn eq(&self, other: &Unsaturated) -> (r: bool) {
        let index_eq: bool = match (self.index, other.index) {
            (None, None) => true,
            (Some(a), Some(b)) => a == b,
            _ => false,
        };
        let isomerism_eq: bool = match (self.isomerism, other.isomerism) {
            (None, None) => true,
            (Some(a), Some(b)) => a == b,
            _ => false,
        };
        let unsaturation_eq: bool = match (self.unsaturation, other.unsaturation) {
            (None, None) => true,
            (Some(a), Some(b)) => a == b,
            _ => false,
        };
        index_eq && isomerism_eq && unsaturation_eq
    }
}

impl vstd::std_specs::cmp::PartialEqSpecImpl for Unsaturated {
    open spec fn obeys_eq_spec() -> bool {
        true
    }

    open spec fn eq_spec(&self, other: &Unsaturated) -> bool {
        *self == *other
    }
}

impl Eq for Unsaturated {}

/// A fatty acid: carbon count plus the ordered unsaturation descriptors.
/// The descriptor order is significant: the reference dataset stores each
/// identity in one canonical order (see [`FattyAcid::sort`]).
#[derive(Debug)]
pub struct FattyAcid {
    pub carbons: u8,
    pub unsaturated: Vec<Unsaturated>,
}

/// The mathematical value of a fatty-acid identity.
pub struct FattyAcidView {
    pub carbons: u8,
    pub unsaturated: Seq<Unsaturated>,
}

impl View for FattyAcid {
    type V = FattyAcidView;

    open spec fn view(&self) -> FattyAcidView {
        FattyAcidView { carbons: self.carbons, unsaturated: self.unsaturated@ }
    }
}

impl FattyAcid {
    /// A saturated fatty acid with the given carbon count.
    pub fn new(carbons: u8) -> (r: Self)
        ensures
            r.carbons == carbons,
            r.unsaturated@ =~= Seq::<Unsaturated>::empty(),
    {
        Self { carbons, unsaturated: Vec::new() }
    }
}

impl Clone for FattyAcid {
    fn clone(&self) -> (r: Self)
        ensures
            r@ == self@,
    {
        let mut unsaturated: Vec<Unsaturated> = Vec::new();
        let mut i: usize = 0;
        while i < self.unsaturated.len()
            invariant
                i <= self.unsaturated@.len(),
                unsaturated@ =~= self.unsaturated@.subrange(0, i as int),
            decreases self.unsaturated@.len() - i,
        {
            unsaturated.push(self.unsaturated[i]);
            i = i + 1;
        }
        proof {
            assert(self.unsaturated@.subrange(0, self.unsaturated@.len() as int) =~= self
                .unsaturated@);
        }
        let r = Self { carbons: self.carbons, unsaturated };
        proof {
            assert(r.unsaturated@ == self.unsaturated@);
        }
        r
    }
}

impl PartialEq for FattyAcid {
    fn eq(&self, other: &FattyAcid) -> (r: bool) {
        if self.carbons != other.carbons {
            return false;
        }
        if self.unsaturated.len() != other.unsaturated.len() {
            return false;
        }
        let mut i: usize = 0;
        while i < self.unsaturated.len()
            invariant
                i <= self.unsaturated@.len(),
                self.unsaturated@.len() == other.unsaturated@.len(),
                forall|j: int| 0 <= j < i ==> self.unsaturated@[j] == other.unsaturated@[j],
            decreases self.unsaturated@.len() - i,
        {
            if !(self.unsaturated[i] == other.unsaturated[i]) {
                return false;
            }
            i = i + 1;
        }
        proof {
            assert(self.unsaturated@ =~= other.unsaturated@);
        }
        true
    }
}

impl vstd::std_specs::cmp::PartialEqSpecImpl for FattyAcid {
    open spec fn obeys_eq_spec() -> bool {
        true
    }

    open spec fn eq_spec(&self, other: &FattyAcid) -> bool {
        self@ == other@
    }
}

impl Eq for FattyAcid {}

/// Rank of the bond-order component inside the canonical descriptor order:
/// unknown sorts first, then single extra bonds, then double ones.
pub open spec fn unsaturation_rank(u: Option<Unsaturation>) -> int {
    match u {
        None => 0,
        Some(Unsaturation::One) => 1,
        Some(Unsaturation::Two) => 2,
    }
}

/// Rank of the geometry component: unknown sorts first, then trans, then cis
/// (trans carries the smaller signed encoding).
pub open spec fn isomerism_rank(i: Option<Isomerism>) -> int {
    match i {
        None => 0,
        Some(Isomerism::Trans) => 1,
        Some(Isomerism::Cis) => 2,
    }
}

/// Rank of the position component: unknown sorts first, then by position.
pub open spec fn index_rank(x: Option<u8>) -> int {
    match x {
        None => 0,
        Some(n) => n + 1,
    }
}

/// Canonical (total) order on unsaturation descriptors: bond order first,
/// then geometry, then position.
pub open spec fn key_le(a: Unsaturated, b: Unsaturated) -> bool {
    if unsaturation_rank(a.unsaturation) != unsaturation_rank(b.unsaturation) {
        unsaturation_rank(a.unsaturation) < unsaturation_rank(b.unsaturation)
    } else if isomerism_rank(a.isomerism) != isomerism_rank(b.isomerism) {
        isomerism_rank(a.isomerism) < isomerism_rank(b.isomerism)
    } else {
        index_rank(a.index) <= index_rank(b.index)
    }
}

/// The descriptor list is in the canonical order.
pub open spec fn canonically_ordered(s: Seq<Unsaturated>) -> bool {
    forall|i: int, j: int| 0 <= i < j < s.len() ==> key_le(#[trigger] s[i], #[trigger] s[j])
}

fn key_le_exec(a: &Unsaturated, b: &Unsaturated) -> (r: bool)
    ensures
        r == key_le(*a, *b),
{
    let ra: u16 = match a.unsaturation {
        None => 0,
        Some(Unsaturation::One) => 1,
        Some(Unsaturation::Two) => 2,
    };
    let rb: u16 = match b.unsaturation {
        None => 0,
        Some(Unsaturation::One) => 1,
        Some(Unsaturation::Two) => 2,
    };
    if ra != rb {
        return ra < rb;
    }
    let ia: u16 = match a.isomerism {
        None => 0,
        Some(Isomerism::Trans) => 1,
        Some(Isomerism::Cis) => 2,
    };
    let ib: u16 = match b.isomerism {
        None => 0,
        Some(Isomerism::Trans) => 1,
        Some(Isomerism::Cis) => 2,
    };
    if ia != ib {
        return ia < ib;
    }
    let xa: u16 = match a.index {
        None => 0,
        Some(n) => n as u16 + 1,
    };
    let xb: u16 = match b.index {
        None => 0,
        Some(n) => n as u16 + 1,
    };
    xa <= xb
}

impl FattyAcid {
    /// Puts the unsaturation descriptors into the canonical order while
    /// keeping exactly the same descriptors (insertion sort).
    pub fn sort(&mut self)
        ensures
            final(self).carbons == old(self).carbons,
            final(self).unsaturated@.to_multiset() == old(self).unsaturated@.to_multiset(),
            canonically_ordered(final(self).unsaturated@),
    {
        let n: usize = self.unsaturated.len();
        if n < 2 {
            return;
        }
        let mut i: usize = 1;
        while i < n
            invariant
                n == self.unsaturated@.len(),
                self.carbons == old(self).carbons,
                self.unsaturated@.to_multiset() == old(self).unsaturated@.to_multiset(),
                canonically_ordered(self.unsaturated@.subrange(0, i as int)),
                1 <= i <= n,
            decreases n - i,
        {
            proof {
                let s = self.unsaturated@;
                assert forall|p: int, q: int| 0 <= p < q <= i && q != i implies key_le(
                    #[trigger] s[p],
                    #[trigger] s[q],
                ) by {
                    assert(s.subrange(0, i as int)[p] == s[p]);
                    assert(s.subrange(0, i as int)[q] == s[q]);
                }
            }
            let mut j: usize = i;
            while j > 0 && !key_le_exec(&self.unsaturated[j - 1], &self.unsaturated[j])
                invariant
                    0 <= j <= i < n,
                    n == self.unsaturated@.len(),
                    self.carbons == old(self).carbons,
                    self.unsaturated@.to_multiset() == old(self).unsaturated@.to_multiset(),
                    forall|k: int| j < k <= i ==> key_le(
                        self.unsaturated@[j as int],
                        #[trigger] self.unsaturated@[k],
                    ),
                    forall|p: int, q: int| 0 <= p < q <= i && q != j ==> key_le(
                        #[trigger] self.unsaturated@[p],
                        #[trigger] self.unsaturated@[q],
                    ),
                decreases j,
            {
                let ghost before = self.unsaturated@;
                let left = self.unsaturated[j - 1];
                let right = self.unsaturated[j];
                self.unsaturated[j - 1] = right;
                self.unsaturated[j] = left;
                proof {
                    let after = self.unsaturated@;
                    lemma_swap_preserves_multiset(before, j - 1, j as int);
                    lemma_key_le_total(left, right);
                    assert(key_le(right, left));
                    assert forall|k: int| j - 1 < k <= i implies key_le(
                        after[j - 1],
                        #[trigger] after[k],
                    ) by {
                        if k != j {
                            assert(key_le(before[j as int], before[k]));
                        }
                    }
                    assert forall|p: int, q: int| 0 <= p < q <= i && q != j - 1 implies key_le(
                        #[trigger] after[p],
                        #[trigger] after[q],
                    ) by {
                        if q == j {
                            if p < j - 1 {
                                assert(key_le(before[p], before[j - 1]));
                            }
                        } else if q > j {
                            if p == j - 1 {
                                assert(key_le(before[j as int], before[q]));
                            } else if p == j {
                                assert(key_le(before[j - 1], before[q]));
                            } else {
                                assert(key_le(before[p], before[q]));
                            }
                        } else {
                            assert(key_le(before[p], before[q]));
                        }
                    }
                }
                j = j - 1;
            }
            proof {
                let s = self.unsaturated@;
                assert forall|p: int, q: int| 0 <= p < q <= i implies key_le(
                    #[trigger] s[p],
                    #[trigger] s[q],
                ) by {
                    if q == j {
                        if p < j - 1 {
                            assert(key_le(s[p], s[j - 1]));
                            assert(key_le(s[j - 1], s[q]));
                        }
                    } else {
                        assert(key_le(s[p], s[q]));
                    }
                }
                assert forall|p: int, q: int| 0 <= p < q < i + 1 implies key_le(
                    #[trigger] s.subrange(0, i + 1)[p],
                    #[trigger] s.subrange(0, i + 1)[q],
                ) by {
                    assert(s.subrange(0, i + 1)[p] == s[p]);
                    assert(s.subrange(0, i + 1)[q] == s[q]);
                }
                assert(canonically_ordered(s.subrange(0, i + 1)));
            }
            i = i + 1;
        }
        proof {
            assert(self.unsaturated@.subrange(0, n as int) =~= self.unsaturated@);
            assert(canonically_ordered(self.unsaturated@));
        }
    }
}

/// Contribution of one descriptor to the number of extra bonds: an unknown
/// bond order counts as a single extra bond.
pub open spec fn unsaturated_weight(u: Unsaturated) -> int {
    match u.unsaturation {
        None => 1,
        Some(Unsaturation::One) => 1,
        Some(Unsaturation::Two) => 2,
    }
}

/// Total number of extra bonds described by a descriptor list.
pub open spec fn total_unsaturation(s: Seq<Unsaturated>) -> int
    decreases s.len(),
{
    if s.len() == 0 {
        0
    } else {
        unsaturated_weight(s.first()) + total_unsaturation(s.drop_first())
    }
}

/// Each descriptor weighs at least one and at most two extra bonds.
proof fn lemma_total_unsaturation_bounds(s: Seq<Unsaturated>)
    ensures
        s.len() <= total_unsaturation(s) <= 2 * s.len(),
    decreases s.len(),
{
    if s.len() > 0 {
        lemma_total_unsaturation_bounds(s.drop_first());
    }
}

impl FattyAcid {
    /// Number of carbon-carbon bonds along the chain.
    pub open spec fn spec_b(&self) -> int {
        if self.carbons == 0 {
            0
        } else {
            self.carbons - 1
        }
    }

    /// Number of extra (unsaturated) bonds.
    pub open spec fn spec_u(&self) -> int {
        total_unsaturation(self.unsaturated@)
    }

    /// Carbon count as recovered from the bond count.
    pub open spec fn spec_c(&self) -> int {
        self.spec_b() + 1
    }

    /// Bounds: the number of carbon-carbon bonds.
    pub fn b(&self) -> (r: u8)
        ensures
            r == self.spec_b(),
    {
        if self.carbons == 0 {
            0
        } else {
            self.carbons - 1
        }
    }

    /// Unsaturated bounds: the number of extra bonds over all descriptors.
    pub fn u(&self) -> (r: u8)
        requires
            self.spec_u() <= u8::MAX,
        ensures
            r == self.spec_u(),
    {
        let s = &self.unsaturated;
        let mut sum: u8 = 0;
        let mut k: usize = 0;
        proof {
            assert(s@.skip(0) =~= s@);
        }
        while k < s.len()
            invariant
                k <= s@.len(),
                total_unsaturation(s@) <= u8::MAX,
                sum + total_unsaturation(s@.skip(k as int)) == total_unsaturation(s@),
            decreases s@.len() - k,
        {
            proof {
                lemma_total_unsaturation_bounds(s@.skip(k as int));
                assert(s@.skip(k as int).first() == s@[k as int]);
                assert(s@.skip(k as int).drop_first() =~= s@.skip(k as int + 1));
            }
            let w: u8 = match s[k].unsaturation {
                None => 1,
                Some(Unsaturation::One) => 1,
                Some(Unsaturation::Two) => 2,
            };
            proof {
                lemma_total_unsaturation_bounds(s@.skip(k as int + 1));
            }
            sum = sum + w;
            k = k + 1;
        }
        proof {
            assert(s@.skip(s@.len() as int) =~= Seq::<Unsaturated>::empty());
        }
        sum
    }

    /// Carbon count, one more than the bond count.
    pub fn c(&self) -> (r: u8)
        ensures
            r == self.spec_c(),
    {
        self.b() + 1
    }

    /// Hydrogen count, `H = 2C - 2U`.
    pub fn h(&self) -> (r: u8)
        requires
            self.spec_c() <= 127,
            self.spec_u() <= self.spec_c(),
        ensures
            r == 2 * self.spec_c() - 2 * self.spec_u(),
    {
        2 * self.c() - 2 * self.u()
    }

    /// Equivalent carbon number, `ECN = C - 2U`.
    pub fn ecn(&self) -> (r: u8)
        requires
            2 * self.spec_u() <= self.spec_c(),
        ensures
            r == self.spec_c() - 2 * self.spec_u(),
    {
        proof {
            lemma_total_unsaturation_bounds(self.unsaturated@);
        }
        self.c() - 2 * self.u()
    }

    /// Whether the fatty acid is saturated.
    pub fn s(&self) -> (r: bool)
        requires
            self.spec_u() <= u8::MAX,
        ensures
            r == (self.spec_u() == 0),
    {
        self.u() == 0
    }
}

/// Offset basis of the 64-bit FNV-1a hash.
pub const HASH_BASIS: u64 = 0xcbf2_9ce4_8422_2325;

/// Prime multiplier of the 64-bit FNV-1a hash.
pub const HASH_PRIME: u64 = 0x100_0000_01b3;

/// One FNV-1a step: fold one byte into the running hash.
pub open spec fn hash_step(h: u64, b: u8) -> u64 {
    (((h ^ (b as u64)) as nat * (HASH_PRIME as nat)) % 0x1_0000_0000_0000_0000nat) as u64
}

/// Folds one unsaturation descriptor into the running hash, one byte per
/// component, with a leading presence byte for the position.
pub open spec fn hash_unsaturated(h: u64, u: Unsaturated) -> u64 {
    let h1 = match u.index {
        None => hash_step(hash_step(h, 0), 0),
        Some(n) => hash_step(hash_step(h, 1), n),
    };
    let h2 = match u.isomerism {
        None => hash_step(h1, 0),
        Some(Isomerism::Trans) => hash_step(h1, 1),
        Some(Isomerism::Cis) => hash_step(h1, 2),
    };
    match u.unsaturation {
        None => hash_step(h2, 0),
        Some(Unsaturation::One) => hash_step(h2, 1),
        Some(Unsaturation::Two) => hash_step(h2, 2),
    }
}

/// Folds a whole descriptor list into the running hash, left to right.
pub open spec fn hash_unsaturated_seq(h: u64, s: Seq<Unsaturated>) -> u64
    decreases s.len(),
{
    if s.len() == 0 {
        h
    } else {
        hash_unsaturated_seq(hash_unsaturated(h, s.first()), s.drop_first())
    }
}

/// Content hash of a fatty-acid identity. Two structurally equal identities
/// hash alike, so a hash mismatch may be used as a join pre-filter; a hash
/// match proves nothing and is always confirmed by structural equality.
pub open spec fn spec_identity_hash(v: FattyAcidView) -> u64 {
    hash_unsaturated_seq(hash_step(HASH_BASIS, v.carbons), v.unsaturated)
}

fn hash_step_exec(h: u64, b: u8) -> (r: u64)
    ensures
        r == hash_step(h, b),
{
    (h ^ (b as u64)).wrapping_mul(HASH_PRIME)
}

impl FattyAcid {
    /// Content hash over the carbon count and every descriptor component.
    pub fn identity_hash(&self) -> (r: u64)
        ensures
            r == spec_identity_hash(self@),
    {
        let s = &self.unsaturated;
        let mut h: u64 = hash_step_exec(HASH_BASIS, self.carbons);
        let mut k: usize = 0;
        proof {
            assert(s@.skip(0) =~= s@);
        }
        while k < s.len()
            invariant
                k <= s@.len(),
                hash_unsaturated_seq(h, s@.skip(k as int)) == spec_identity_hash(self@),
            decreases s@.len() - k,
        {
            proof {
                assert(s@.skip(k as int).first() == s@[k as int]);
                assert(s@.skip(k as int).drop_first() =~= s@.skip(k as int + 1));
            }
            let u = s[k];
            let h1: u64 = match u.index {
                None => hash_step_exec(hash_step_exec(h, 0), 0),
                Some(n) => hash_step_exec(hash_step_exec(h, 1), n),
            };
            let h2: u64 = match u.isomerism {
                None => hash_step_exec(h1, 0),
                Some(Isomerism::Trans) => hash_step_exec(h1, 1),
                Some(Isomerism::Cis) => hash_step_exec(h1, 2),
            };
            h = match u.unsaturation {
                None => hash_step_exec(h2, 0),
                Some(Unsaturation::One) => hash_step_exec(h2, 1),
                Some(Unsaturation::Two) => hash_step_exec(h2, 2),
            };
            k = k + 1;
        }
        proof {
            assert(s@.skip(s@.len() as int) =~= Seq::<Unsaturated>::empty());
        }
        h
    }
}

/// The content hash depends only on the structural identity: structurally
/// equal fatty acids always hash alike. A join may therefore skip a record
/// whose hash differs, but a hash match decides nothing.
pub proof fn lemma_identity_hash_congruent(a: FattyAcidView, b: FattyAcidView)
    requires
        a == b,
    ensures
        spec_identity_hash(a) == spec_identity_hash(b),
{
}

/// The canonical order is total.
proof fn lemma_key_le_total(a: Unsaturated, b: Unsaturated)
    ensures
        key_le(a, b) || key_le(b, a),
{
}

/// Swapping two positions of a sequence keeps its multiset of elements.
proof fn lemma_swap_preserves_multiset(s: Seq<Unsaturated>, i: int, j: int)
    requires
        0 <= i < s.len(),
        0 <= j < s.len(),
        i != j,
    ensures
        s.update(i, s[j]).update(j, s[i]).to_multiset() == s.to_multiset(),
{
    broadcast use vstd::seq_lib::group_to_multiset_ensures;
    broadcast use vstd::seq_lib::to_multiset_update;

    let s1 = s.update(i, s[j]);
    let s2 = s1.update(j, s[i]);
    assert(s1[j] == s[j]);
    assert(s1.to_multiset() == s.to_multiset().insert(s[j]).remove(s[i]));
    assert(s2.to_multiset() == s1.to_multiset().insert(s[i]).remove(s1[j]));
    assert(s2.to_multiset() =~= s.to_multiset());
}

} // verus!
