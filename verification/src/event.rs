//! What the wallets tell the ledger: the notices for its event log, and the
//! transfer that an approved withdrawal asks it to make.

use vstd::prelude::*;
use crate::error::Error;
use crate::ids::AccountId;
use crate::ids::Balance;

verus! {

/// A notice for the ledger's event log.
#[derive(Clone, Copy, Debug, PartialEq, Eq)]
pub enum Event {
    /// A wallet was created under this identifier.
    WalletCreated(AccountId),
    /// A withdrawal was carried out: the wallet, the recipient, the amount.
    WithdrawalExecuted(AccountId, AccountId, Balance),
}

/// A movement of funds that the ledger is asked to make.
#[derive(Clone, Copy, Debug, PartialEq, Eq)]
pub struct Transfer {
    pub from: AccountId,
    pub to: AccountId,
    pub value: Balance,
}

/// What an accepted withdrawal call leads to.
#[derive(Clone, Copy, Debug, PartialEq, Eq)]
pub enum Withdrawal {
    /// The request waits for more approvals; no funds move.
    Pending,
    /// The request has all its approvals and its record is gone: the ledger
    /// is to make this transfer, once.
    Approved(Transfer),
}

/// What a withdrawal ends in, once the ledger has said whether it made the
/// transfer.
pub open spec fn spec_settle_result(transferred: bool) -> Result<(), Error> {
    if transferred {
        Ok(())
    } else {
        Err(Error::TransferFailed)
    }
}

/// The event log after the ledger has said whether it made `transfer`.
pub open spec fn spec_settle_events(events: Seq<Event>, transfer: Transfer, transferred: bool) -> Seq<
    Event,
> {
    if transferred {
        events.push(Event::WithdrawalExecuted(transfer.from, transfer.to, transfer.value))
    } else {
        events
    }
}

impl Transfer {
    /// Closes an approved withdrawal with the ledger's answer. A transfer
    /// that was made is appended to `events`; one that the ledger refused is
    /// an error, and the approvals stay used up.
    pub fn settle(&self, transferred: bool, events: &mut Vec<Event>) -> (result: Result<(), Error>)
        ensures
            result == spec_settle_result(transferred),
            final(events)@ == spec_settle_events(old(events)@, *self, transferred),
    {
        if !transferred {
            return Err(Error::TransferFailed);
        }
        events.push(Event::WithdrawalExecuted(self.from, self.to, self.value));
        Ok(())
    }
}

} // verus!
