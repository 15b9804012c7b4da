//! The wallet registry with its nonce counter, and the withdrawal
//! orchestrator on top of the approval tracker.

use vstd::prelude::*;
use crate::bitmask::approvers;
use crate::bitmask::Bitmask;
use crate::error::Error;
use crate::event::Event;
use crate::event::Transfer;
use crate::event::Withdrawal;
use crate::fingerprint::digest_collision;
use crate::fingerprint::lemma_wallet_preimage_injective;
use crate::fingerprint::operation_hash;
use crate::fingerprint::spec_operation_hash;
use crate::fingerprint::spec_wallet_id;
use crate::fingerprint::spec_wallet_preimage;
use crate::fingerprint::wallet_id;
use crate::ids::AccountId;
use crate::ids::Balance;
use crate::ids::Fingerprint;
use crate::store::Store;
use crate::tracker::approved;
use crate::tracker::records_valid;
use crate::tracker::spec_approve_records;
use crate::tracker::spec_approve_result;
use crate::tracker::ApprovalTracker;
use crate::wallet::account_views;
use crate::wallet::owner_index;
use crate::wallet::spec_check_wallet;
use crate::wallet::Wallet;
use crate::wallet::WalletView;

verus! {

/// All that the wallets remember, as plain values.
#[verifier::ext_equal]
pub struct State {
    /// How many wallets have been created.
    pub nonce: nat,
    /// Each wallet, by its identifier.
    pub wallets: Map<Seq<u8>, WalletView>,
    /// The positions that have approved each pending request, by the
    /// request's fingerprint.
    pub approvals: Map<Seq<u8>, Set<int>>,
}

impl State {
    /// The state before anything has happened.
    pub open spec fn genesis() -> State {
        State { nonce: 0, wallets: Map::empty(), approvals: Map::empty() }
    }

    /// The nonce fits its counter, every wallet is valid and so is every
    /// approval record.
    pub open spec fn valid(self) -> bool {
        &&& self.nonce <= u64::MAX
        &&& forall|id: Seq<u8>| #[trigger]
            self.wallets.dom().contains(id) ==> self.wallets[id].valid()
        &&& records_valid(self.approvals)
    }
}

/// Every wallet's identifier was derived from a creator and a nonce below
/// the present one.
pub open spec fn ids_derived(state: State) -> bool {
    forall|id: Seq<u8>| #[trigger]
        state.wallets.dom().contains(id) ==> exists|sender: AccountId, nonce: u64|
            nonce < state.nonce && id == #[trigger] spec_wallet_id(sender@, nonce)
}

/// What creating a wallet answers: what is wrong with the owners or the
/// threshold, or else the identifier derived from the creator and the nonce.
pub open spec fn spec_create_result(
    state: State,
    sender: Seq<u8>,
    owners: Seq<Seq<u8>>,
    signatures_required: u64,
) -> Result<Seq<u8>, Error> {
    match spec_check_wallet(owners.len(), signatures_required) {
        Err(error) => Err(error),
        Ok(_) => Ok(spec_wallet_id(sender, state.nonce as u64)),
    }
}

/// The state after creating a wallet: the same after an error, and else
/// with the nonce one higher and the wallet stored under its identifier.
pub open spec fn spec_create_state(
    state: State,
    sender: Seq<u8>,
    owners: Seq<Seq<u8>>,
    signatures_required: u64,
) -> State {
    match spec_create_result(state, sender, owners, signatures_required) {
        Err(_) => state,
        Ok(id) => State {
            nonce: state.nonce + 1,
            wallets: state.wallets.insert(id, WalletView { owners, signatures_required }),
            approvals: state.approvals,
        },
    }
}

/// The event log after creating a wallet: the same after an error, and else
/// with the notice of the new wallet at its end.
pub open spec fn spec_create_events(events: Seq<Event>, created: Result<AccountId, Error>) -> Seq<
    Event,
> {
    match created {
        Err(_) => events,
        Ok(id) => events.push(Event::WalletCreated(id)),
    }
}

/// What a withdrawal call answers. The wallet is looked up first, then the
/// caller among its owners, then the caller's earlier approval of the same
/// request; the request is approved once the approvals number exactly the
/// wallet's threshold.
pub open spec fn spec_withdraw_result(
    state: State,
    who: AccountId,
    wallet: AccountId,
    to: AccountId,
    value: Balance,
) -> Result<Withdrawal, Error> {
    if !state.wallets.dom().contains(wallet@) {
        Err(Error::WalletNotFound)
    } else {
        match owner_index(state.wallets[wallet@].owners, who@) {
            None => Err(Error::NotAnOwner),
            Some(index) => match spec_approve_result(
                state.approvals,
                spec_operation_hash(wallet@, to@, value),
                index,
                state.wallets[wallet@].signatures_required,
            ) {
                Err(error) => Err(error),
                Ok(false) => Ok(Withdrawal::Pending),
                Ok(true) => Ok(Withdrawal::Approved(Transfer { from: wallet, to, value })),
            },
        }
    }
}

/// The state after a withdrawal call: the nonce and the wallets stay, and an
/// accepted call adds the caller's position to the record of the request, or
/// deletes the record where that approval was the last one needed.
pub open spec fn spec_withdraw_state(
    state: State,
    who: AccountId,
    wallet: AccountId,
    to: AccountId,
    value: Balance,
) -> State {
    if !state.wallets.dom().contains(wallet@) {
        state
    } else {
        match owner_index(state.wallets[wallet@].owners, who@) {
            None => state,
            Some(index) => State {
                nonce: state.nonce,
                wallets: state.wallets,
                approvals: spec_approve_records(
                    state.approvals,
                    spec_operation_hash(wallet@, to@, value),
                    index,
                    state.wallets[wallet@].signatures_required,
                ),
            },
        }
    }
}

/// The wallets: the registry, its nonce counter and the approval tracker.
pub struct Module {
    nonce: u64,
    wallets: Store<Wallet>,
    approvals: ApprovalTracker,
}

impl View for Module {
    type V = State;

    closed spec fn view(&self) -> State {
        State {
            nonce: self.nonce as nat,
            wallets: self.wallets@.map_values(|wallet: Wallet| wallet@),
            approvals: self.approvals@,
        }
    }
}

impl Module {
    /// The tables are well formed, every wallet is valid, and every wallet's
    /// identifier was derived from a creator and an earlier nonce.
    pub closed spec fn wf(&self) -> bool {
        &&& self.wallets.wf()
        &&& self.approvals.wf()
        &&& forall|id: Seq<u8>| #[trigger]
            self.wallets@.dom().contains(id) ==> {
                &&& self.wallets@[id]@.valid()
                &&& exists|sender: AccountId, nonce: u64|
                    nonce < self.nonce && id == #[trigger] spec_wallet_id(sender@, nonce)
            }
    }

    /// What is well formed shows a valid state.
    pub proof fn lemma_valid(&self)
        requires
            self.wf(),
        ensures
            self@.valid(),
    {
        self.approvals.lemma_records_valid();
        assert forall|id: Seq<u8>| #[trigger]
            self@.wallets.dom().contains(id) implies self@.wallets[id].valid() by {
            assert(self.wallets@.dom().contains(id));
        }
    }

    /// Every wallet's identifier was derived from its creator and a nonce
    /// below the present one.
    pub proof fn lemma_wallet_ids_derived(&self)
        requires
            self.wf(),
        ensures
            ids_derived(self@),
    {
        assert forall|id: Seq<u8>| #[trigger]
            self@.wallets.dom().contains(id) implies exists|sender: AccountId, nonce: u64|
            nonce < self@.nonce && id == #[trigger] spec_wallet_id(sender@, nonce) by {
            assert(self.wallets@.dom().contains(id));
            let (sender, nonce) = choose|sender: AccountId, nonce: u64|
                nonce < self.nonce && id == #[trigger] spec_wallet_id(sender@, nonce);
            assert(nonce < self@.nonce && id == spec_wallet_id(sender@, nonce));
        }
    }

    /// The wallets at genesis: none, and a nonce of zero.
    pub fn new() -> (module: Self)
        ensures
            module.wf(),
            module@ == State::genesis(),
    {
        let module = Module { nonce: 0, wallets: Store::new(), approvals: ApprovalTracker::new() };
        assert(module@.wallets =~= Map::<Seq<u8>, WalletView>::empty());
        module
    }

    /// How many wallets have been created.
    pub fn global_nonce(&self) -> (nonce: u64)
        ensures
            nonce == self@.nonce,
    {
        self.nonce
    }

    /// The owners of `wallet`, in their order.
    pub fn owners(&self, wallet: &AccountId) -> (owners: Result<Vec<AccountId>, Error>)
        requires
            self.wf(),
        ensures
            match owners {
                Ok(owners) => self@.wallets.dom().contains(wallet@) && account_views(owners@)
                    == self@.wallets[wallet@].owners,
                Err(error) => !self@.wallets.dom().contains(wallet@) && error
                    == Error::WalletNotFound,
            },
    {
        match self.wallets.get(&wallet.0) {
            Some(found) => Ok(found.owners()),
            None => Err(Error::WalletNotFound),
        }
    }

    /// The number of approvals that a withdrawal from `wallet` needs.
    pub fn signatures_required(&self, wallet: &AccountId) -> (required: Result<u64, Error>)
        requires
            self.wf(),
        ensures
            match required {
                Ok(required) => self@.wallets.dom().contains(wallet@) && required
                    == self@.wallets[wallet@].signatures_required,
                Err(error) => !self@.wallets.dom().contains(wallet@) && error
                    == Error::WalletNotFound,
            },
    {
        match self.wallets.get(&wallet.0) {
            Some(found) => Ok(found.signatures_required()),
            None => Err(Error::WalletNotFound),
        }
    }

    /// The approvals of the request `operation` as a mask, bit `i` for the
    /// owner at position `i`: zero where the request has no record.
    pub fn operation_bitmask(&self, operation: &Fingerprint) -> (bitmask: u64)
        requires
            self.wf(),
        ensures
            approvers(bitmask) == approved(self@.approvals, operation@),
    {
        self.approvals.bitmask(operation).bits
    }

    /// Counts the bits that are set in `bitmask`: the owners that have
    /// approved.
    pub fn signs_count(bitmask: &u64) -> (count: u64)
        ensures
            count == approvers(*bitmask).len(),
    {
        Bitmask { bits: *bitmask }.count()
    }

    /// Creates a wallet of `owners` that releases a withdrawal on
    /// `signatures_required` approvals, for the caller `sender`. The wallet's
    /// identifier is derived from `sender` and the nonce, which goes up by
    /// one; the notice of the new wallet is appended to `events`. A call
    /// that is refused changes nothing.
    pub fn create(
        &mut self,
        sender: &AccountId,
        owners: Vec<AccountId>,
        signatures_required: u64,
        events: &mut Vec<Event>,
    ) -> (created: Result<AccountId, Error>)
        requires
            old(self).wf(),
            old(self)@.nonce < u64::MAX,
        ensures
            final(self).wf(),
            match created {
                Ok(id) => spec_create_result(
                    old(self)@,
                    sender@,
                    account_views(owners@),
                    signatures_required,
                ) == Ok::<Seq<u8>, Error>(id@),
                Err(error) => spec_create_result(
                    old(self)@,
                    sender@,
                    account_views(owners@),
                    signatures_required,
                ) == Err::<Seq<u8>, Error>(error),
            },
            final(self)@ == spec_create_state(
                old(self)@,
                sender@,
                account_views(owners@),
                signatures_required,
            ),
            final(events)@ == spec_create_events(old(events)@, created),
            created matches Ok(id) && old(self)@.wallets.dom().contains(id@) ==> exists|
                earlier: AccountId,
                nonce: u64,
            |
                nonce < old(self)@.nonce && #[trigger] digest_collision(
                    spec_wallet_preimage(earlier@, nonce),
                    spec_wallet_preimage(sender@, old(self)@.nonce as u64),
                ),
    {
        let ghost views = account_views(owners@);
        let wallet = match Wallet::new(owners, signatures_required) {
            Ok(wallet) => wallet,
            Err(error) => {
                return Err(error);
            },
        };
        let this_nonce: u64 = self.nonce;
        self.nonce = self.nonce + 1;
        let id = wallet_id(sender, this_nonce);
        proof {
            if old(self).wallets@.dom().contains(id@) {
                let (earlier, nonce) = choose|earlier: AccountId, nonce: u64|
                    nonce < this_nonce && id@ == #[trigger] spec_wallet_id(earlier@, nonce);
                lemma_wallet_preimage_injective(earlier, nonce, *sender, this_nonce);
                assert(digest_collision(
                    spec_wallet_preimage(earlier@, nonce),
                    spec_wallet_preimage(sender@, this_nonce),
                ));
            }
        }
        self.wallets.insert(&id.0, wallet);
        events.push(Event::WalletCreated(id));
        proof {
            assert forall|other: Seq<u8>| #[trigger]
                self.wallets@.dom().contains(other) implies {
                &&& self.wallets@[other]@.valid()
                &&& exists|sender: AccountId, nonce: u64|
                    nonce < self.nonce && other == #[trigger] spec_wallet_id(sender@, nonce)
            } by {
                if other == id@ {
                    assert(other == spec_wallet_id(sender@, this_nonce));
                } else {
                    assert(old(self).wallets@.dom().contains(other));
                    let (earlier, nonce) = choose|earlier: AccountId, nonce: u64|
                        nonce < this_nonce && other == #[trigger] spec_wallet_id(earlier@, nonce);
                    assert(nonce < self.nonce && other == spec_wallet_id(earlier@, nonce));
                }
            }
            assert(self@.wallets =~= old(self)@.wallets.insert(
                id@,
                WalletView { owners: views, signatures_required },
            ));
        }
        Ok(id)
    }

    /// Records that `who` approves the withdrawal of `value` from `wallet`
    /// to `to`. Once the approvals of this very request number the wallet's
    /// threshold, the record is deleted and the transfer is handed out for
    /// the ledger to make. A call that is refused changes nothing.
    pub fn withdraw(&mut self, who: &AccountId, wallet: &AccountId, to: &AccountId, value: Balance) -> (
        outcome: Result<Withdrawal, Error>
    )
        requires
            old(self).wf(),
        ensures
            final(self).wf(),
            outcome == spec_withdraw_result(old(self)@, *who, *wallet, *to, value),
            final(self)@ == spec_withdraw_state(old(self)@, *who, *wallet, *to, value),
    {
        let found = match self.wallets.get(&wallet.0) {
            Some(found) => found,
            None => {
                return Err(Error::WalletNotFound);
            },
        };
        let index = match found.position(who) {
            Some(index) => index,
            None => {
                return Err(Error::NotAnOwner);
            },
        };
        let required = found.signatures_required();
        let operation = operation_hash(wallet, to, value);
        match self.approvals.approve(&operation, index, required) {
            Err(error) => Err(error),
            Ok(false) => Ok(Withdrawal::Pending),
            Ok(true) => Ok(Withdrawal::Approved(Transfer { from: *wallet, to: *to, value })),
        }
    }
}

} // verus!
