//! The ways in which a call can fail.

use vstd::prelude::*;

verus! {

/// Why a call was refused. A refused call changes nothing, with one
/// exception: `TransferFailed` comes after the approvals of the request
/// have been used up.
#[derive(Clone, Copy, Debug, PartialEq, Eq, Structural)]
pub enum Error {
    /// A wallet was asked for with no owner, or with more than 64.
    InvalidOwners,
    /// A wallet was asked for with a threshold of zero, or one above the
    /// number of its owners.
    InvalidThreshold,
    /// No wallet has the identifier that the call names.
    WalletNotFound,
    /// The caller is not among the owners of the wallet.
    NotAnOwner,
    /// The caller has approved this very request before.
    AlreadyApproved,
    /// The ledger refused the transfer of an approved withdrawal.
    TransferFailed,
}

} // verus!
