//! What holds of the wallets whatever the calls and their order.

use vstd::prelude::*;
use crate::bitmask::MAX_OWNERS;
use crate::error::Error;
use crate::event::Event;
use crate::event::Transfer;
use crate::event::Withdrawal;
use crate::fingerprint::digest_collision;
use crate::fingerprint::lemma_operation_preimage_injective;
use crate::fingerprint::lemma_wallet_preimage_injective;
use crate::fingerprint::spec_operation_hash;
use crate::fingerprint::spec_operation_preimage;
use crate::fingerprint::spec_wallet_id;
use crate::fingerprint::spec_wallet_preimage;
use crate::ids::AccountId;
use crate::ids::Balance;
use crate::module::ids_derived;
use crate::module::spec_create_events;
use crate::module::spec_create_result;
use crate::module::spec_create_state;
use crate::module::spec_withdraw_result;
use crate::module::spec_withdraw_state;
use crate::module::State;
use crate::tracker::approved;
use crate::tracker::spec_approve_records;
use crate::tracker::spec_approve_result;
use crate::wallet::account_views;
use crate::wallet::lemma_owner_index_none;
use crate::wallet::owner_index;
use crate::wallet::WalletView;

verus! {

/// Wallets created by different callers, or at different nonces, have
/// different identifiers, unless the digest gives one value to the two
/// different byte strings that were hashed for them.
pub proof fn lemma_wallet_ids_differ(
    sender1: AccountId,
    nonce1: u64,
    sender2: AccountId,
    nonce2: u64,
)
    requires
        sender1@ != sender2@ || nonce1 != nonce2,
    ensures
        spec_wallet_id(sender1@, nonce1) != spec_wallet_id(sender2@, nonce2) || digest_collision(
            spec_wallet_preimage(sender1@, nonce1),
            spec_wallet_preimage(sender2@, nonce2),
        ),
{
    lemma_wallet_preimage_injective(sender1, nonce1, sender2, nonce2);
}

/// Creating a wallet with 1 to 64 owners and a threshold between 1 and
/// their number succeeds: the answer is the identifier derived from the
/// caller and the nonce, the nonce goes up by one, the wallet is stored
/// under that identifier, and its notice ends the event log.
pub proof fn lemma_valid_create_succeeds(
    state: State,
    sender: AccountId,
    owners: Seq<AccountId>,
    signatures_required: u64,
    events: Seq<Event>,
)
    requires
        1 <= owners.len() <= MAX_OWNERS,
        1 <= signatures_required <= owners.len(),
    ensures
        spec_create_result(state, sender@, account_views(owners), signatures_required) == Ok::<
            Seq<u8>,
            Error,
        >(spec_wallet_id(sender@, state.nonce as u64)),
        spec_create_state(state, sender@, account_views(owners), signatures_required) == (State {
            nonce: state.nonce + 1,
            wallets: state.wallets.insert(
                spec_wallet_id(sender@, state.nonce as u64),
                WalletView { owners: account_views(owners), signatures_required },
            ),
            approvals: state.approvals,
        }),
        forall|id: AccountId| #[trigger]
            spec_create_events(events, Ok(id)) == events.push(Event::WalletCreated(id)),
{
}

/// A wallet is created under an identifier that no wallet has yet, unless
/// the digest gives one value to the bytes hashed for it and to the bytes
/// hashed for an earlier wallet. The identifiers stay derived from earlier
/// nonces.
pub proof fn lemma_created_id_is_new(
    state: State,
    sender: AccountId,
    owners: Seq<AccountId>,
    signatures_required: u64,
)
    requires
        ids_derived(state),
        state.nonce < u64::MAX,
    ensures
        ids_derived(spec_create_state(state, sender@, account_views(owners), signatures_required)),
        match spec_create_result(state, sender@, account_views(owners), signatures_required) {
            Ok(id) => !state.wallets.dom().contains(id) || exists|earlier: AccountId, nonce: u64|
                nonce < state.nonce && #[trigger] digest_collision(
                    spec_wallet_preimage(earlier@, nonce),
                    spec_wallet_preimage(sender@, state.nonce as u64),
                ),
            Err(_) => true,
        },
{
    let after = spec_create_state(state, sender@, account_views(owners), signatures_required);
    match spec_create_result(state, sender@, account_views(owners), signatures_required) {
        Ok(id) => {
            let this_nonce = state.nonce as u64;
            if state.wallets.dom().contains(id) {
                let (earlier, nonce) = choose|earlier: AccountId, nonce: u64|
                    nonce < state.nonce && id == #[trigger] spec_wallet_id(earlier@, nonce);
                lemma_wallet_preimage_injective(earlier, nonce, sender, this_nonce);
                assert(digest_collision(
                    spec_wallet_preimage(earlier@, nonce),
                    spec_wallet_preimage(sender@, this_nonce),
                ));
            }
            assert forall|other: Seq<u8>| #[trigger]
                after.wallets.dom().contains(other) implies exists|sender: AccountId, nonce: u64|
                nonce < after.nonce && other == #[trigger] spec_wallet_id(sender@, nonce) by {
                if other == id {
                    assert(this_nonce < after.nonce && other == spec_wallet_id(sender@, this_nonce));
                } else {
                    assert(state.wallets.dom().contains(other));
                    let (earlier, nonce) = choose|earlier: AccountId, nonce: u64|
                        nonce < state.nonce && other == #[trigger] spec_wallet_id(earlier@, nonce);
                    assert(nonce < after.nonce && other == spec_wallet_id(earlier@, nonce));
                }
            }
        },
        Err(_) => {},
    }
}

/// No call lowers the nonce: creating a wallet raises it by one, a refused
/// creation and every withdrawal call leave it as it is.
pub proof fn lemma_nonce_never_falls(
    state: State,
    sender: AccountId,
    owners: Seq<AccountId>,
    signatures_required: u64,
    who: AccountId,
    wallet: AccountId,
    to: AccountId,
    value: Balance,
)
    ensures
        spec_create_state(state, sender@, account_views(owners), signatures_required).nonce
            >= state.nonce,
        spec_withdraw_state(state, who, wallet, to, value).nonce == state.nonce,
{
}

/// A wallet, once created, stays as it is: a withdrawal call changes no
/// wallet, and creating a wallet changes none but the one stored under the
/// new identifier, and no approval.
pub proof fn lemma_wallets_stay(
    state: State,
    sender: AccountId,
    owners: Seq<AccountId>,
    signatures_required: u64,
    who: AccountId,
    wallet: AccountId,
    to: AccountId,
    value: Balance,
    id: Seq<u8>,
)
    requires
        state.wallets.dom().contains(id),
    ensures
        spec_withdraw_state(state, who, wallet, to, value).wallets == state.wallets,
        spec_create_state(
            state,
            sender@,
            account_views(owners),
            signatures_required,
        ).wallets.dom().contains(id),
        spec_create_result(state, sender@, account_views(owners), signatures_required) != Ok::<
            Seq<u8>,
            Error,
        >(id) ==> spec_create_state(
            state,
            sender@,
            account_views(owners),
            signatures_required,
        ).wallets[id] == state.wallets[id],
        spec_create_state(state, sender@, account_views(owners), signatures_required).approvals
            == state.approvals,
{
}

/// Two wallets that one caller creates, the second at any later nonce, have
/// different identifiers, unless the digest gives one value to the two
/// different byte strings that were hashed for them.
pub proof fn lemma_two_creates_differ(
    first: State,
    second: State,
    sender: AccountId,
    owners1: Seq<AccountId>,
    required1: u64,
    owners2: Seq<AccountId>,
    required2: u64,
)
    requires
        first.nonce < second.nonce <= u64::MAX,
    ensures
        match (
            spec_create_result(first, sender@, account_views(owners1), required1),
            spec_create_result(second, sender@, account_views(owners2), required2),
        ) {
            (Ok(id1), Ok(id2)) => id1 != id2 || digest_collision(
                spec_wallet_preimage(sender@, first.nonce as u64),
                spec_wallet_preimage(sender@, second.nonce as u64),
            ),
            _ => true,
        },
{
    lemma_wallet_ids_differ(sender, first.nonce as u64, sender, second.nonce as u64);
}

/// Creating a wallet with no owner, with more than 64, with a threshold of
/// zero or with one above the number of owners is refused, with the error
/// for the owners where both are wrong, and changes neither the nonce, nor
/// the wallets, nor the approvals, nor the event log.
pub proof fn lemma_invalid_create_changes_nothing(
    state: State,
    sender: AccountId,
    owners: Seq<AccountId>,
    signatures_required: u64,
    events: Seq<Event>,
)
    requires
        owners.len() == 0 || owners.len() > MAX_OWNERS || signatures_required == 0
            || signatures_required > owners.len(),
    ensures
        spec_create_result(state, sender@, account_views(owners), signatures_required) == if owners.len()
            == 0 || owners.len() > MAX_OWNERS {
            Err::<Seq<u8>, Error>(Error::InvalidOwners)
        } else {
            Err::<Seq<u8>, Error>(Error::InvalidThreshold)
        },
        spec_create_state(state, sender@, account_views(owners), signatures_required) == state,
        forall|error: Error| spec_create_events(events, Err(error)) == events,
{
}

/// A withdrawal call by someone who is not among the wallet's owners is
/// refused as such and changes nothing.
pub proof fn lemma_non_owner_changes_nothing(
    state: State,
    who: AccountId,
    wallet: AccountId,
    to: AccountId,
    value: Balance,
)
    requires
        state.wallets.dom().contains(wallet@),
        !state.wallets[wallet@].owners.contains(who@),
    ensures
        spec_withdraw_result(state, who, wallet, to, value) == Err::<Withdrawal, Error>(
            Error::NotAnOwner,
        ),
        spec_withdraw_state(state, who, wallet, to, value) == state,
{
    lemma_owner_index_none(state.wallets[wallet@].owners, who@);
}

/// A withdrawal call that is refused, for whatever reason, changes nothing.
pub proof fn lemma_refused_withdraw_changes_nothing(
    state: State,
    who: AccountId,
    wallet: AccountId,
    to: AccountId,
    value: Balance,
)
    requires
        spec_withdraw_result(state, who, wallet, to, value) is Err,
    ensures
        spec_withdraw_state(state, who, wallet, to, value) == state,
{
}

/// Requests that differ in the wallet, the recipient or the amount have
/// records of their own: a withdrawal call for one of them leaves the
/// approvals of the other as they were, unless the digest gives one value to
/// the two different byte strings that were hashed for them.
pub proof fn lemma_other_request_untouched(
    state: State,
    who: AccountId,
    wallet: AccountId,
    to: AccountId,
    value: Balance,
    other_wallet: AccountId,
    other_to: AccountId,
    other_value: Balance,
)
    requires
        wallet@ != other_wallet@ || to@ != other_to@ || value != other_value,
    ensures
        ({
            let after = spec_withdraw_state(state, who, wallet, to, value);
            let other = spec_operation_hash(other_wallet@, other_to@, other_value);
            ||| {
                &&& after.approvals.dom().contains(other) == state.approvals.dom().contains(other)
                &&& approved(after.approvals, other) == approved(state.approvals, other)
            }
            ||| digest_collision(
                spec_operation_preimage(wallet@, to@, value),
                spec_operation_preimage(other_wallet@, other_to@, other_value),
            )
        }),
{
    lemma_operation_preimage_injective(wallet, to, value, other_wallet, other_to, other_value);
}

/// Creating a wallet keeps a valid state valid.
pub proof fn lemma_create_keeps_valid(
    state: State,
    sender: AccountId,
    owners: Seq<AccountId>,
    signatures_required: u64,
)
    requires
        state.valid(),
        state.nonce < u64::MAX,
    ensures
        spec_create_state(state, sender@, account_views(owners), signatures_required).valid(),
{
}

/// A withdrawal call keeps a valid state valid: no approval record is left
/// empty, and none holds a position that no wallet can have.
pub proof fn lemma_withdraw_keeps_valid(
    state: State,
    who: AccountId,
    wallet: AccountId,
    to: AccountId,
    value: Balance,
)
    requires
        state.valid(),
    ensures
        spec_withdraw_state(state, who, wallet, to, value).valid(),
{
    let after = spec_withdraw_state(state, who, wallet, to, value);
    if state.wallets.dom().contains(wallet@) {
        let owners = state.wallets[wallet@].owners;
        if let Some(index) = owner_index(owners, who@) {
            let operation = spec_operation_hash(wallet@, to@, value);
            let before = approved(state.approvals, operation);
            assert(0 <= index < owners.len());
            assert(before.finite());
            assert forall|other: Seq<u8>| #[trigger]
                after.approvals.dom().contains(other) implies {
                &&& after.approvals[other].finite()
                &&& after.approvals[other].len() >= 1
                &&& forall|i: int| after.approvals[other].contains(i) ==> 0 <= i < MAX_OWNERS
            } by {
                if other == operation && !before.contains(index) {
                    assert(before.insert(index).remove(index).len() + 1 == before.insert(
                        index,
                    ).len());
                } else {
                    assert(state.approvals.dom().contains(other));
                }
            }
        }
    }
}

/// The record of a request holds positions of the wallet's owners only, and
/// fewer of them than the wallet's threshold.
pub open spec fn record_partial(state: State, wallet: AccountId, to: AccountId, value: Balance) -> bool {
    let record = approved(state.approvals, spec_operation_hash(wallet@, to@, value));
    &&& record.finite()
    &&& record.len() < state.wallets[wallet@].signatures_required
    &&& forall|i: int| record.contains(i) ==> 0 <= i < state.wallets[wallet@].owners.len()
}

/// A withdrawal call keeps the record of its request partial: what it adds
/// is the position of an owner of the wallet, and a record that reaches the
/// threshold is deleted at once.
pub proof fn lemma_record_stays_partial(
    state: State,
    who: AccountId,
    wallet: AccountId,
    to: AccountId,
    value: Balance,
)
    requires
        state.wallets.dom().contains(wallet@),
        state.wallets[wallet@].valid(),
        record_partial(state, wallet, to, value),
    ensures
        record_partial(spec_withdraw_state(state, who, wallet, to, value), wallet, to, value),
{
    let operation = spec_operation_hash(wallet@, to@, value);
    let before = approved(state.approvals, operation);
    if let Some(index) = owner_index(state.wallets[wallet@].owners, who@) {
        if !before.contains(index) {
            assert(before.insert(index).len() == before.len() + 1);
        }
    }
}

/// Who has approved a request that is still pending is refused when
/// approving it again, and the refusal changes nothing.
pub proof fn lemma_repeated_withdraw_refused(
    state: State,
    who: AccountId,
    wallet: AccountId,
    to: AccountId,
    value: Balance,
)
    requires
        spec_withdraw_result(state, who, wallet, to, value) == Ok::<Withdrawal, Error>(
            Withdrawal::Pending,
        ),
    ensures
        spec_withdraw_result(
            spec_withdraw_state(state, who, wallet, to, value),
            who,
            wallet,
            to,
            value,
        ) == Err::<Withdrawal, Error>(Error::AlreadyApproved),
        spec_withdraw_state(
            spec_withdraw_state(state, who, wallet, to, value),
            who,
            wallet,
            to,
            value,
        ) == spec_withdraw_state(state, who, wallet, to, value),
{
}

/// A request that has been approved leaves no record behind: the same
/// request, made again, starts with no approval at all.
pub proof fn lemma_approved_request_starts_afresh(
    state: State,
    who: AccountId,
    wallet: AccountId,
    to: AccountId,
    value: Balance,
)
    requires
        spec_withdraw_result(state, who, wallet, to, value) == Ok::<Withdrawal, Error>(
            Withdrawal::Approved(Transfer { from: wallet, to, value }),
        ),
    ensures
        approved(
            spec_withdraw_state(state, who, wallet, to, value).approvals,
            spec_operation_hash(wallet@, to@, value),
        ) == Set::<int>::empty(),
{
}

/// The records after the owners at `positions` have approved `operation`,
/// one after the other.
pub open spec fn spec_approve_each(
    records: Map<Seq<u8>, Set<int>>,
    operation: Seq<u8>,
    positions: Seq<int>,
    required: u64,
) -> Map<Seq<u8>, Set<int>>
    decreases positions.len(),
{
    if positions.len() == 0 {
        records
    } else {
        spec_approve_each(
            spec_approve_records(records, operation, positions.first(), required),
            operation,
            positions.drop_first(),
            required,
        )
    }
}

/// Only who has approved counts, not in which order. Let distinct owners
/// approve one request, none of whom has approved it before, as many as
/// are still missing for the threshold: each approval but the last leaves
/// the request pending, the last one releases it, and the record is gone
/// after it, so that the same request starts afresh.
pub proof fn lemma_threshold_reached_in_any_order(
    records: Map<Seq<u8>, Set<int>>,
    operation: Seq<u8>,
    positions: Seq<int>,
    required: u64,
)
    requires
        positions.len() >= 1,
        positions.no_duplicates(),
        forall|k: int|
            0 <= k < positions.len() ==> !approved(records, operation).contains(positions[k]),
        approved(records, operation).finite(),
        approved(records, operation).len() + positions.len() == required,
    ensures
        spec_approve_each(records, operation, positions, required) == records.remove(operation),
        forall|k: int|
            0 <= k < positions.len() ==> spec_approve_result(
                spec_approve_each(records, operation, #[trigger] positions.take(k), required),
                operation,
                positions[k],
                required,
            ) == Ok::<bool, Error>(k == positions.len() - 1),
    decreases positions.len(),
{
    let first = positions.first();
    let rest = positions.drop_first();
    let next = spec_approve_records(records, operation, first, required);
    assert(positions.take(0) =~= Seq::<int>::empty());
    assert(spec_approve_each(records, operation, positions, required) == spec_approve_each(
        next,
        operation,
        rest,
        required,
    ));
    if positions.len() == 1 {
        assert(rest.len() == 0);
        assert(spec_approve_each(next, operation, rest, required) == next);
        assert(next =~= records.remove(operation));
        assert forall|k: int| 0 <= k < positions.len() implies spec_approve_result(
            spec_approve_each(records, operation, #[trigger] positions.take(k), required),
            operation,
            positions[k],
            required,
        ) == Ok::<bool, Error>(k == positions.len() - 1) by {
            assert(k == 0);
        }
    } else {
        assert(next == records.insert(operation, approved(records, operation).insert(first)));
        assert forall|k: int| 0 <= k < rest.len() implies !approved(next, operation).contains(
            rest[k],
        ) by {
            assert(rest[k] == positions[k + 1]);
            assert(positions[0] != positions[k + 1]);
        }
        lemma_threshold_reached_in_any_order(next, operation, rest, required);
        assert(next.remove(operation) =~= records.remove(operation));
        assert forall|k: int| 0 <= k < positions.len() implies spec_approve_result(
            spec_approve_each(records, operation, #[trigger] positions.take(k), required),
            operation,
            positions[k],
            required,
        ) == Ok::<bool, Error>(k == positions.len() - 1) by {
            if k > 0 {
                assert(positions.take(k).first() == first);
                assert(positions.take(k).drop_first() =~= rest.take(k - 1));
                assert(rest[k - 1] == positions[k]);
            }
        }
    }
}

} // verus!
