//! A wallet: its owners, in the order that fixes each owner's position, and
//! the number of approvals that a withdrawal needs.

use vstd::prelude::*;
use crate::bitmask::MAX_OWNERS;
use crate::error::Error;
use crate::ids::AccountId;

verus! {

/// The identifiers in `accounts` as byte strings.
pub open spec fn account_views(accounts: Seq<AccountId>) -> Seq<Seq<u8>> {
    accounts.map_values(|account: AccountId| account@)
}

/// `who` stands at position `index` of `owners` and nowhere before it.
pub open spec fn first_at(owners: Seq<Seq<u8>>, who: Seq<u8>, index: int) -> bool {
    &&& 0 <= index < owners.len()
    &&& owners[index] == who
    &&& forall|j: int| 0 <= j < index ==> owners[j] != who
}

/// The position of `who` among `owners`: the first, should there be several.
pub open spec fn owner_index(owners: Seq<Seq<u8>>, who: Seq<u8>) -> Option<int> {
    if exists|index: int| first_at(owners, who, index) {
        Some(choose|index: int| first_at(owners, who, index))
    } else {
        None
    }
}

/// Where `who` stands first is the position of `who`.
pub proof fn lemma_owner_index_at(owners: Seq<Seq<u8>>, who: Seq<u8>, index: int)
    requires
        first_at(owners, who, index),
    ensures
        owner_index(owners, who) == Some(index),
{
    let chosen = choose|i: int| first_at(owners, who, i);
    assert(chosen == index);
}

/// Who is not among the owners has no position, and the other way round.
pub proof fn lemma_owner_index_none(owners: Seq<Seq<u8>>, who: Seq<u8>)
    ensures
        owner_index(owners, who) is None <==> !owners.contains(who),
{
    if owners.contains(who) {
        let at = choose|i: int| 0 <= i < owners.len() && owners[i] == who;
        lemma_has_first(owners, who, at);
    } else if exists|index: int| first_at(owners, who, index) {
        let index = choose|index: int| first_at(owners, who, index);
        assert(owners[index] == who);
    }
}

/// An owner found at some position has a first position, at or before it.
proof fn lemma_has_first(owners: Seq<Seq<u8>>, who: Seq<u8>, at: int)
    requires
        0 <= at < owners.len(),
        owners[at] == who,
    ensures
        exists|index: int| first_at(owners, who, index),
    decreases at,
{
    if exists|j: int| 0 <= j < at && owners[j] == who {
        let j = choose|j: int| 0 <= j < at && owners[j] == who;
        lemma_has_first(owners, who, j);
    } else {
        assert(first_at(owners, who, at));
    }
}

/// What a wallet is, as plain values.
pub struct WalletView {
    pub owners: Seq<Seq<u8>>,
    pub signatures_required: u64,
}

/// Whether a wallet may have `count` owners.
pub open spec fn owners_valid(count: nat) -> bool {
    1 <= count <= MAX_OWNERS
}

/// Whether a wallet of `count` owners may ask for `required` approvals.
pub open spec fn threshold_valid(count: nat, required: u64) -> bool {
    1 <= required <= count
}

impl WalletView {
    /// Between 1 and 64 owners, and a threshold between 1 and their number.
    pub open spec fn valid(self) -> bool {
        owners_valid(self.owners.len()) && threshold_valid(
            self.owners.len(),
            self.signatures_required,
        )
    }
}

/// What asking for a wallet of `count` owners and threshold `required`
/// answers: the number of owners is looked at first.
pub open spec fn spec_check_wallet(count: nat, required: u64) -> Result<(), Error> {
    if !owners_valid(count) {
        Err(Error::InvalidOwners)
    } else if !threshold_valid(count, required) {
        Err(Error::InvalidThreshold)
    } else {
        Ok(())
    }
}

/// A wallet. It is made once and never changes.
pub struct Wallet {
    owners: Vec<AccountId>,
    signatures_required: u64,
}

impl View for Wallet {
    type V = WalletView;

    closed spec fn view(&self) -> WalletView {
        WalletView {
            owners: account_views(self.owners@),
            signatures_required: self.signatures_required,
        }
    }
}

impl Wallet {
    /// Makes a wallet of `owners` that asks for `signatures_required`
    /// approvals, or says what is wrong with the two.
    pub fn new(owners: Vec<AccountId>, signatures_required: u64) -> (made: Result<Wallet, Error>)
        ensures
            match made {
                Ok(wallet) => {
                    &&& spec_check_wallet(owners@.len(), signatures_required) is Ok
                    &&& wallet@.valid()
                    &&& wallet@.owners == account_views(owners@)
                    &&& wallet@.signatures_required == signatures_required
                },
                Err(error) => spec_check_wallet(owners@.len(), signatures_required) == Err::<
                    (),
                    Error,
                >(error),
            },
    {
        if 0 == owners.len() || owners.len() > MAX_OWNERS {
            return Err(Error::InvalidOwners);
        }
        if 0 == signatures_required || signatures_required > owners.len() as u64 {
            return Err(Error::InvalidThreshold);
        }
        Ok(Wallet { owners, signatures_required })
    }

    /// The number of approvals that a withdrawal needs.
    pub fn signatures_required(&self) -> (required: u64)
        ensures
            required == self@.signatures_required,
    {
        self.signatures_required
    }

    /// The owners, in their order.
    pub fn owners(&self) -> (owners: Vec<AccountId>)
        ensures
            account_views(owners@) == self@.owners,
    {
        let mut owners: Vec<AccountId> = Vec::new();
        let mut i: usize = 0;
        while i < self.owners.len()
            invariant
                i <= self.owners@.len(),
                owners@ == self.owners@.subrange(0, i as int),
            decreases self.owners@.len() - i,
        {
            owners.push(self.owners[i]);
            assert(owners@ =~= self.owners@.subrange(0, i + 1));
            i += 1;
        }
        assert(owners@ =~= self.owners@);
        owners
    }

    /// The position of `who` among the owners, if `who` is one of them.
    pub fn position(&self, who: &AccountId) -> (found: Option<usize>)
        ensures
            match found {
                Some(index) => owner_index(self@.owners, who@) == Some(index as int),
                None => owner_index(self@.owners, who@) is None,
            },
    {
        let ghost owners = self@.owners;
        let mut i: usize = 0;
        while i < self.owners.len()
            invariant
                i <= self.owners@.len(),
                owners == account_views(self.owners@),
                forall|j: int| 0 <= j < i ==> owners[j] != who@,
            decreases self.owners@.len() - i,
        {
            if self.owners[i].same(who) {
                proof {
                    lemma_owner_index_at(owners, who@, i as int);
                }
                return Some(i);
            }
            i += 1;
        }
        proof {
            assert(!owners.contains(who@));
            lemma_owner_index_none(owners, who@);
        }
        None
    }
}

} // verus!
