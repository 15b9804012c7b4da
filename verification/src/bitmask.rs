//! Approval bitmasks: one bit for each owner position of a wallet.

use vstd::prelude::*;

verus! {

/// The most owners a wallet can have: one bit of the mask for each.
pub const MAX_OWNERS: usize = 64;

/// Whether bit `i` of `bits` is set.
pub open spec fn has_bit(bits: u64, i: int) -> bool {
    0 <= i < 64 && (bits >> (i as u64)) & 1 == 1
}

/// The owner positions whose bit is set in `bits`.
pub open spec fn approvers(bits: u64) -> Set<int> {
    Set::new(|i: int| has_bit(bits, i))
}

/// The owner positions below `n` whose bit is set in `bits`.
spec fn approvers_below(bits: u64, n: int) -> Set<int> {
    Set::new(|i: int| i < n && has_bit(bits, i))
}

/// The positions below `n` are finitely many, at most `n`.
proof fn lemma_approvers_below_finite(bits: u64, n: int)
    requires
        0 <= n <= 64,
    ensures
        approvers_below(bits, n).finite(),
        approvers_below(bits, n).len() <= n,
    decreases n,
{
    if n == 0 {
        assert(approvers_below(bits, 0) =~= Set::<int>::empty());
    } else {
        lemma_approvers_below_finite(bits, n - 1);
        lemma_approvers_below_step(bits, n - 1);
    }
}

/// Going one position up adds that position exactly when its bit is set.
proof fn lemma_approvers_below_step(bits: u64, n: int)
    requires
        0 <= n < 64,
    ensures
        approvers_below(bits, n + 1) == if has_bit(bits, n) {
            approvers_below(bits, n).insert(n)
        } else {
            approvers_below(bits, n)
        },
{
    if has_bit(bits, n) {
        assert(approvers_below(bits, n + 1) =~= approvers_below(bits, n).insert(n));
    } else {
        assert(approvers_below(bits, n + 1) =~= approvers_below(bits, n));
    }
}

/// A mask has finitely many approvers, at most one for each bit.
pub proof fn lemma_approvers_finite(bits: u64)
    ensures
        approvers(bits).finite(),
        approvers(bits).len() <= 64,
{
    lemma_approvers_below_finite(bits, 64);
    assert(approvers(bits) =~= approvers_below(bits, 64));
}

/// Bit `index` of a mask is tested by masking it out.
pub proof fn lemma_test_bit(bits: u64, index: usize)
    requires
        index < MAX_OWNERS,
    ensures
        (bits & (1u64 << index) != 0) == approvers(bits).contains(index as int),
{
    let at: u64 = index as u64;
    assert(at < 64 ==> ((bits & (1u64 << at) != 0) <==> (bits >> at) & 1 == 1)) by (bit_vector);
}

/// Setting bit `index` of a mask adds position `index` to its approvers and
/// changes nothing else.
pub proof fn lemma_set_bit(bits: u64, index: usize)
    requires
        index < MAX_OWNERS,
    ensures
        approvers(bits | (1u64 << index)) == approvers(bits).insert(index as int),
{
    let at: u64 = index as u64;
    let set: u64 = bits | (1u64 << at);
    assert forall|i: int| has_bit(set, i) <==> (has_bit(bits, i) || i == index) by {
        if 0 <= i < 64 {
            let j: u64 = i as u64;
            assert(at < 64 && j < 64 ==> (((bits | (1u64 << at)) >> j) & 1 == 1 <==> ((bits >> j) & 1
                == 1 || j == at))) by (bit_vector);
        }
    }
    assert(approvers(set) =~= approvers(bits).insert(index as int));
}

/// The mask without a bit has no approvers.
pub proof fn lemma_no_bits()
    ensures
        approvers(0) == Set::<int>::empty(),
{
    assert forall|i: int| !has_bit(0, i) by {
        if 0 <= i < 64 {
            let j: u64 = i as u64;
            assert(j < 64 ==> (0u64 >> j) & 1 == 0) by (bit_vector);
        }
    }
    assert(approvers(0) =~= Set::<int>::empty());
}

/// The lowest `n` bits of `bits`.
spec fn low_bits(bits: u64, n: u64) -> u64 {
    if n >= 64 {
        bits
    } else {
        bits & !(u64::MAX << n)
    }
}

/// Two masks with the same approvers agree on their lowest `n` bits.
proof fn lemma_low_bits_agree(a: u64, b: u64, n: u64)
    requires
        n <= 64,
        approvers(a) == approvers(b),
    ensures
        low_bits(a, n) == low_bits(b, n),
    decreases n,
{
    if n == 0 {
        assert(a & !(u64::MAX << 0u64) == 0) by (bit_vector);
        assert(b & !(u64::MAX << 0u64) == 0) by (bit_vector);
    } else {
        let k: u64 = (n - 1) as u64;
        lemma_low_bits_agree(a, b, k);
        assert(approvers(a).contains(k as int) == has_bit(a, k as int));
        assert(approvers(b).contains(k as int) == has_bit(b, k as int));
        let bit_a: bool = (a >> k) & 1 == 1;
        let bit_b: bool = (b >> k) & 1 == 1;
        assert(bit_a == bit_b);
        if n < 64 {
            assert(k < 63 && a & !(u64::MAX << k) == b & !(u64::MAX << k) && (((a >> k) & 1 == 1) == ((b
                >> k) & 1 == 1)) ==> a & !(u64::MAX << ((k + 1) as u64)) == b & !(u64::MAX << ((k
                + 1) as u64))) by (bit_vector);
        } else {
            assert(k == 63 && a & !(u64::MAX << k) == b & !(u64::MAX << k) && (((a >> k) & 1 == 1) == ((b
                >> k) & 1 == 1)) ==> a == b) by (bit_vector);
        }
    }
}

/// A mask is known by its approvers: masks with the same approvers are equal.
pub proof fn lemma_approvers_injective(a: u64, b: u64)
    requires
        approvers(a) == approvers(b),
    ensures
        a == b,
{
    lemma_low_bits_agree(a, b, 64);
}

/// The set of owner positions that have approved one request.
#[derive(Clone, Copy, Debug, PartialEq, Eq)]
pub struct Bitmask {
    pub bits: u64,
}

impl View for Bitmask {
    type V = Set<int>;

    open spec fn view(&self) -> Set<int> {
        approvers(self.bits)
    }
}

impl Bitmask {
    /// The mask in which nobody has approved.
    pub fn new() -> (mask: Bitmask)
        ensures
            mask@ == Set::<int>::empty(),
            mask.bits == 0,
    {
        proof {
            lemma_no_bits();
        }
        Bitmask { bits: 0 }
    }

    /// Whether the owner at position `index` has approved.
    pub fn contains(&self, index: usize) -> (found: bool)
        requires
            index < MAX_OWNERS,
        ensures
            found == self@.contains(index as int),
    {
        proof {
            lemma_test_bit(self.bits, index);
        }
        self.bits & (1u64 << index) != 0
    }

    /// Records the approval of the owner at position `index`.
    pub fn insert(&mut self, index: usize)
        requires
            index < MAX_OWNERS,
        ensures
            final(self)@ == old(self)@.insert(index as int),
            final(self).bits == old(self).bits | (1u64 << index),
    {
        proof {
            lemma_set_bit(self.bits, index);
        }
        self.bits = self.bits | (1u64 << index);
    }

    /// How many owners have approved: the number of bits that are set.
    pub fn count(&self) -> (count: u64)
        ensures
            count == self@.len(),
    {
        let mut count: u64 = 0;
        let mut mask: u64 = self.bits;
        let ghost bits: u64 = self.bits;
        let ghost mut seen: int = 0;
        proof {
            lemma_approvers_below_finite(bits, 0);
            assert(bits >> 0u64 == bits) by (bit_vector);
        }
        while mask > 0
            invariant
                0 <= seen <= 64,
                seen < 64 ==> mask == bits >> (seen as u64),
                seen == 64 ==> mask == 0,
                approvers_below(bits, seen).finite(),
                count == approvers_below(bits, seen).len(),
                count <= seen,
            decreases mask,
        {
            let ghost shift: u64 = seen as u64;
            proof {
                lemma_approvers_below_step(bits, seen);
                assert(mask > 0 ==> mask >> 1u64 < mask) by (bit_vector);
                assert(shift < 63 ==> (bits >> shift) >> 1u64 == bits >> ((shift + 1) as u64))
                    by (bit_vector);
                assert(shift == 63 ==> (bits >> shift) >> 1u64 == 0) by (bit_vector);
            }
            if mask & 1 == 1 {
                count += 1;
            }
            mask >>= 1;
            proof {
                seen = seen + 1;
            }
        }
        proof {
            let shift: u64 = seen as u64;
            assert forall|i: int| seen <= i < 64 implies !has_bit(bits, i) by {
                let at: u64 = i as u64;
                assert(shift <= at && at < 64 && bits >> shift == 0 ==> (bits >> at) & 1 == 0)
                    by (bit_vector);
            }
            assert(approvers(bits) =~= approvers_below(bits, seen));
        }
        count
    }
}

} // verus!
