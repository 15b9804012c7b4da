//! The approval tracker: for each pending withdrawal request, which owner
//! positions have approved it.

use vstd::prelude::*;
use crate::bitmask::lemma_approvers_finite;
use crate::bitmask::Bitmask;
use crate::bitmask::MAX_OWNERS;
use crate::error::Error;
use crate::ids::Fingerprint;
use crate::store::Store;

verus! {

/// The positions that have approved `operation`: none where it has no record.
pub open spec fn approved(records: Map<Seq<u8>, Set<int>>, operation: Seq<u8>) -> Set<int> {
    if records.dom().contains(operation) {
        records[operation]
    } else {
        Set::empty()
    }
}

/// What an approval of `operation` by position `index` answers: an error
/// where that position has approved before, else whether the approvals now
/// number exactly `required`.
pub open spec fn spec_approve_result(
    records: Map<Seq<u8>, Set<int>>,
    operation: Seq<u8>,
    index: int,
    required: u64,
) -> Result<bool, Error> {
    let before = approved(records, operation);
    if before.contains(index) {
        Err(Error::AlreadyApproved)
    } else {
        Ok(before.insert(index).len() == required)
    }
}

/// The records after an approval of `operation` by position `index`: the
/// same after an error, without the record of `operation` once its approvals
/// number exactly `required`, and else with `index` added to that record.
pub open spec fn spec_approve_records(
    records: Map<Seq<u8>, Set<int>>,
    operation: Seq<u8>,
    index: int,
    required: u64,
) -> Map<Seq<u8>, Set<int>> {
    let before = approved(records, operation);
    if before.contains(index) {
        records
    } else if before.insert(index).len() == required {
        records.remove(operation)
    } else {
        records.insert(operation, before.insert(index))
    }
}

/// Every record holds at least one approval, and only positions that a
/// wallet can have.
pub open spec fn records_valid(records: Map<Seq<u8>, Set<int>>) -> bool {
    forall|operation: Seq<u8>| #[trigger]
        records.dom().contains(operation) ==> {
            &&& records[operation].finite()
            &&& records[operation].len() >= 1
            &&& forall|i: int| records[operation].contains(i) ==> 0 <= i < MAX_OWNERS
        }
}

/// The pending approvals, by the fingerprint of the request.
pub struct ApprovalTracker {
    records: Store<Bitmask>,
}

impl View for ApprovalTracker {
    type V = Map<Seq<u8>, Set<int>>;

    closed spec fn view(&self) -> Map<Seq<u8>, Set<int>> {
        self.records@.map_values(|mask: Bitmask| mask@)
    }
}

impl ApprovalTracker {
    /// The tracker is well formed: no request has two records, and no record
    /// is empty.
    pub closed spec fn wf(&self) -> bool {
        &&& self.records.wf()
        &&& forall|operation: Seq<u8>| #[trigger]
            self.records@.dom().contains(operation) ==> self.records@[operation]@.len() >= 1
    }

    /// A well-formed tracker holds valid records.
    pub proof fn lemma_records_valid(&self)
        requires
            self.wf(),
        ensures
            records_valid(self@),
    {
        assert forall|operation: Seq<u8>| #[trigger]
            self@.dom().contains(operation) implies {
            &&& self@[operation].finite()
            &&& self@[operation].len() >= 1
            &&& forall|i: int| self@[operation].contains(i) ==> 0 <= i < MAX_OWNERS
        } by {
            assert(self.records@.dom().contains(operation));
            lemma_approvers_finite(self.records@[operation].bits);
        }
    }

    /// A tracker without a record.
    pub fn new() -> (tracker: Self)
        ensures
            tracker.wf(),
            tracker@ == Map::<Seq<u8>, Set<int>>::empty(),
    {
        let tracker = ApprovalTracker { records: Store::new() };
        assert(tracker@ =~= Map::<Seq<u8>, Set<int>>::empty());
        tracker
    }

    /// The approvals of `operation` as a mask, bit `i` for position `i`:
    /// zero where the request has no record.
    pub fn bitmask(&self, operation: &Fingerprint) -> (mask: Bitmask)
        requires
            self.wf(),
        ensures
            mask@ == approved(self@, operation@),
    {
        match self.records.get(&operation.0) {
            Some(mask) => *mask,
            None => Bitmask::new(),
        }
    }

    /// Records that the owner at position `index` approves `operation`, and
    /// says whether the approvals now number exactly `required`. If they do,
    /// the record is deleted, so that the same request starts afresh.
    pub fn approve(&mut self, operation: &Fingerprint, index: usize, required: u64) -> (reached:
        Result<bool, Error>)
        requires
            old(self).wf(),
            index < MAX_OWNERS,
        ensures
            final(self).wf(),
            reached == spec_approve_result(old(self)@, operation@, index as int, required),
            final(self)@ == spec_approve_records(old(self)@, operation@, index as int, required),
    {
        let mut mask = self.bitmask(operation);
        if mask.contains(index) {
            return Err(Error::AlreadyApproved);
        }
        mask.insert(index);
        let ghost before = self.records@;
        proof {
            lemma_approvers_finite(mask.bits);
            assert(mask@.remove(index as int).len() + 1 == mask@.len());
        }
        if mask.count() == required {
            self.records.remove(&operation.0);
            proof {
                assert forall|other: Seq<u8>| #[trigger]
                    self.records@.dom().contains(other) implies self.records@[other]@.len() >= 1 by {
                    assert(before.dom().contains(other));
                }
                assert(self@ =~= old(self)@.remove(operation@));
            }
            Ok(true)
        } else {
            self.records.insert(&operation.0, mask);
            proof {
                assert forall|other: Seq<u8>| #[trigger]
                    self.records@.dom().contains(other) implies self.records@[other]@.len() >= 1 by {
                    if other != operation@ {
                        assert(before.dom().contains(other));
                    }
                }
                assert(self@ =~= old(self)@.insert(operation@, mask@));
            }
            Ok(false)
        }
    }
}

} // verus!
