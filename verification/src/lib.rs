//! Shared-custody wallets with M-of-N withdrawal approval.
//!
//! A wallet is a list of owners and a threshold. Any owner may ask for a
//! withdrawal; the transfer is released once as many distinct owners as the
//! threshold asks for have approved the very same request.
//!
//! The wallets keep no funds and talk to nobody. `Module::create` and
//! `Module::withdraw` are steps of a state machine: they change the tables
//! and say what the ledger around them is to do, which is to append notices
//! to its event log and to make the transfer of an approved withdrawal. The
//! ledger's answer to a transfer goes to `Transfer::settle`.

pub mod bitmask;
pub mod error;
pub mod event;
pub mod fingerprint;
pub mod ids;
pub mod laws;
pub mod module;
pub mod store;
pub mod tracker;
pub mod wallet;

pub use bitmask::Bitmask;
pub use bitmask::MAX_OWNERS;
pub use error::Error;
pub use event::Event;
pub use event::Transfer;
pub use event::Withdrawal;
pub use ids::AccountId;
pub use ids::Balance;
pub use ids::Fingerprint;
pub use module::Module;
pub use tracker::ApprovalTracker;
pub use wallet::Wallet;
