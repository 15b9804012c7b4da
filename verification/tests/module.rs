use multisig::error::Error;
use multisig::event::Event;
use multisig::event::Transfer;
use multisig::event::Withdrawal;
use multisig::fingerprint::operation_hash;
use multisig::fingerprint::wallet_id;
use multisig::ids::AccountId;
use multisig::module::Module;

const ALICE: [u8; 32] = [
    0xd1, 0x72, 0xa7, 0x4c, 0xda, 0x4c, 0x86, 0x59, 0x12, 0xc3, 0x2b, 0xa0, 0xa8, 0x0a, 0x57, 0xae,
    0x69, 0xab, 0xae, 0x41, 0x0e, 0x5c, 0xcb, 0x59, 0xde, 0xe8, 0x4e, 0x2f, 0x44, 0x32, 0xdb, 0x4f,
];

const BOB: [u8; 32] = [
    0xd7, 0x56, 0x8e, 0x5f, 0x0a, 0x7e, 0xda, 0x67, 0xa8, 0x26, 0x91, 0xff, 0x37, 0x9a, 0xc4, 0xbb,
    0xa4, 0xf9, 0xc9, 0xb8, 0x59, 0xfe, 0x77, 0x9b, 0x5d, 0x46, 0x36, 0x3b, 0x61, 0xad, 0x2d, 0xb9,
];

const CHARLIE: [u8; 32] = [
    0xa3, 0x9b, 0xff, 0xaf, 0x38, 0x15, 0x10, 0x46, 0x07, 0x37, 0x03, 0xe9, 0x75, 0x6f, 0x8c, 0xe4,
    0x9e, 0xeb, 0xa0, 0x53, 0x41, 0x51, 0xf7, 0xe3, 0xfb, 0xc6, 0xaa, 0x18, 0x5f, 0x06, 0xb3, 0xa4,
];

const WALLET_OF_ALICE_AT_0: [u8; 32] = [
    0x34, 0xd9, 0xa0, 0x58, 0xac, 0x26, 0x5a, 0xa1, 0x61, 0x0b, 0x62, 0x5a, 0x03, 0xb9, 0xa8, 0xa1,
    0x48, 0x31, 0x79, 0xda, 0x15, 0xfd, 0xd6, 0x32, 0x40, 0xcd, 0x37, 0xe2, 0x86, 0xcc, 0x50, 0x0a,
];

const WALLET_OF_ALICE_AT_1: [u8; 32] = [
    0x77, 0x5a, 0x60, 0xe6, 0x44, 0x8e, 0x85, 0xcd, 0xd1, 0xa4, 0x33, 0x3d, 0xd9, 0x62, 0xae, 0x77,
    0x58, 0x8c, 0x02, 0x59, 0x98, 0x9f, 0x3c, 0x66, 0xca, 0xdd, 0xa8, 0x3d, 0x79, 0xac, 0x44, 0x0e,
];

/// The public key of the well-known key pair whose seed is `name`, filled
/// up with blanks.
fn raw_public(name: &str) -> [u8; 32] {
    let mut seed = [b' '; 32];
    seed[..name.len()].copy_from_slice(name.as_bytes());
    ed25519_dalek::SigningKey::from_bytes(&seed).verifying_key().to_bytes()
}

fn alice() -> AccountId {
    AccountId(raw_public("Alice"))
}

fn bob() -> AccountId {
    AccountId(raw_public("Bob"))
}

fn charlie() -> AccountId {
    AccountId(raw_public("Charlie"))
}

fn dave() -> AccountId {
    AccountId(raw_public("Dave"))
}

fn accounts(count: usize) -> Vec<AccountId> {
    let mut list = Vec::new();
    let mut tag = 0;
    while list.len() < count {
        list.push(AccountId([tag; 32]));
        tag += 1;
    }
    list
}

/// A module with one wallet of Alice, Bob and Charlie that asks for two
/// approvals, and that wallet's identifier.
fn two_of_three() -> (Module, AccountId) {
    let mut multisig = Module::new();
    let mut events = Vec::new();
    let wallet = multisig.create(&alice(), vec![alice(), bob(), charlie()], 2, &mut events).unwrap();
    (multisig, wallet)
}

#[test]
fn keyring_accounts_are_the_known_ones() {
    assert_eq!(alice(), AccountId(ALICE));
    assert_eq!(bob(), AccountId(BOB));
    assert_eq!(charlie(), AccountId(CHARLIE));
}

#[test]
fn genesis_nonce() {
    let multisig = Module::new();
    assert_eq!(multisig.global_nonce(), 0);
}

#[test]
fn create() {
    let mut multisig = Module::new();
    let mut events = Vec::new();
    assert!(multisig.create(&alice(), vec![alice(), bob(), charlie()], 2, &mut events).is_ok());
}

#[test]
fn create_derives_the_id_from_sender_and_nonce() {
    let mut multisig = Module::new();
    let mut events = Vec::new();
    let first = multisig.create(&alice(), vec![alice(), bob(), charlie()], 2, &mut events);
    assert_eq!(first, Ok(AccountId(WALLET_OF_ALICE_AT_0)));
    assert_eq!(multisig.global_nonce(), 1);
    let second = multisig.create(&alice(), vec![alice()], 1, &mut events);
    assert_eq!(second, Ok(AccountId(WALLET_OF_ALICE_AT_1)));
    assert_eq!(multisig.global_nonce(), 2);
    let third = multisig.create(&bob(), vec![bob(), alice()], 2, &mut events);
    assert_eq!(third, Ok(wallet_id(&bob(), 2)));
    assert_eq!(multisig.global_nonce(), 3);
}

#[test]
fn create_stores_owners_and_threshold() {
    let (multisig, wallet) = two_of_three();
    assert_eq!(multisig.owners(&wallet), Ok(vec![alice(), bob(), charlie()]));
    assert_eq!(multisig.signatures_required(&wallet), Ok(2));
}

#[test]
fn create_appends_the_notice_of_the_wallet() {
    let mut multisig = Module::new();
    let mut events = vec![Event::WalletCreated(dave())];
    let wallet = multisig.create(&alice(), vec![alice(), bob()], 1, &mut events).unwrap();
    assert_eq!(events, vec![Event::WalletCreated(dave()), Event::WalletCreated(wallet)]);
}

#[test]
fn create_twice_by_one_caller_gives_two_wallets() {
    let mut multisig = Module::new();
    let mut events = Vec::new();
    let first = multisig.create(&alice(), vec![alice(), bob()], 2, &mut events).unwrap();
    let second = multisig.create(&alice(), vec![alice(), bob()], 2, &mut events).unwrap();
    assert_ne!(first, second);
    assert_eq!(multisig.owners(&first), Ok(vec![alice(), bob()]));
    assert_eq!(multisig.owners(&second), Ok(vec![alice(), bob()]));
    assert_eq!(events, vec![Event::WalletCreated(first), Event::WalletCreated(second)]);
}

#[test]
fn create_many_wallets_gives_ids_never_seen_before() {
    let mut multisig = Module::new();
    let mut events = Vec::new();
    let mut seen: Vec<AccountId> = Vec::new();
    let callers = [alice(), bob(), charlie()];
    let mut round = 0;
    while round < 60 {
        let caller = callers[round % 3];
        let id = multisig.create(&caller, vec![caller], 1, &mut events).unwrap();
        assert!(!seen.contains(&id));
        seen.push(id);
        round += 1;
    }
    assert_eq!(multisig.global_nonce(), 60);
}

#[test]
fn create_without_owners_fails_and_changes_nothing() {
    let (mut multisig, wallet) = two_of_three();
    let mut events = Vec::new();
    assert_eq!(multisig.create(&alice(), Vec::new(), 1, &mut events), Err(Error::InvalidOwners));
    assert_eq!(multisig.global_nonce(), 1);
    assert_eq!(multisig.owners(&wallet), Ok(vec![alice(), bob(), charlie()]));
    assert_eq!(multisig.owners(&wallet_id(&alice(), 1)), Err(Error::WalletNotFound));
    assert!(events.is_empty());
}

#[test]
fn create_with_65_owners_fails_and_changes_nothing() {
    let (mut multisig, _) = two_of_three();
    let mut events = Vec::new();
    assert_eq!(multisig.create(&alice(), accounts(65), 1, &mut events), Err(Error::InvalidOwners));
    assert_eq!(multisig.global_nonce(), 1);
    assert_eq!(multisig.owners(&wallet_id(&alice(), 1)), Err(Error::WalletNotFound));
    assert!(events.is_empty());
}

#[test]
fn create_with_64_owners_succeeds() {
    let mut multisig = Module::new();
    let mut events = Vec::new();
    let wallet = multisig.create(&alice(), accounts(64), 64, &mut events).unwrap();
    assert_eq!(multisig.owners(&wallet), Ok(accounts(64)));
    assert_eq!(multisig.signatures_required(&wallet), Ok(64));
}

#[test]
fn create_with_threshold_zero_fails_and_changes_nothing() {
    let (mut multisig, _) = two_of_three();
    let mut events = Vec::new();
    assert_eq!(
        multisig.create(&alice(), vec![alice(), bob()], 0, &mut events),
        Err(Error::InvalidThreshold)
    );
    assert_eq!(multisig.global_nonce(), 1);
    assert_eq!(multisig.owners(&wallet_id(&alice(), 1)), Err(Error::WalletNotFound));
    assert!(events.is_empty());
}

#[test]
fn create_with_threshold_above_owners_fails_and_changes_nothing() {
    let (mut multisig, _) = two_of_three();
    let mut events = Vec::new();
    assert_eq!(
        multisig.create(&alice(), vec![alice(), bob()], 3, &mut events),
        Err(Error::InvalidThreshold)
    );
    assert_eq!(multisig.global_nonce(), 1);
    assert_eq!(multisig.owners(&wallet_id(&alice(), 1)), Err(Error::WalletNotFound));
    assert!(events.is_empty());
}

#[test]
fn lookups_of_an_unknown_wallet_fail() {
    let (multisig, _) = two_of_three();
    assert_eq!(multisig.owners(&alice()), Err(Error::WalletNotFound));
    assert_eq!(multisig.signatures_required(&alice()), Err(Error::WalletNotFound));
}

#[test]
fn withdraw_from_an_unknown_wallet_fails() {
    let (mut multisig, _) = two_of_three();
    assert_eq!(multisig.withdraw(&alice(), &dave(), &bob(), 10), Err(Error::WalletNotFound));
    assert_eq!(multisig.operation_bitmask(&operation_hash(&dave(), &bob(), 10)), 0);
}

#[test]
fn withdraw_by_a_non_owner_fails_and_changes_nothing() {
    let (mut multisig, wallet) = two_of_three();
    let request = operation_hash(&wallet, &dave(), 10);
    assert_eq!(multisig.withdraw(&dave(), &wallet, &dave(), 10), Err(Error::NotAnOwner));
    assert_eq!(multisig.operation_bitmask(&request), 0);
    assert_eq!(multisig.withdraw(&bob(), &wallet, &dave(), 10), Ok(Withdrawal::Pending));
    assert_eq!(multisig.withdraw(&dave(), &wallet, &dave(), 10), Err(Error::NotAnOwner));
    assert_eq!(multisig.operation_bitmask(&request), 0b10);
    assert_eq!(multisig.global_nonce(), 1);
}

#[test]
fn withdraw_two_of_three_approval_cycle() {
    let (mut multisig, wallet) = two_of_three();
    let mut events = Vec::new();
    let request = operation_hash(&wallet, &dave(), 10);

    assert_eq!(multisig.withdraw(&alice(), &wallet, &dave(), 10), Ok(Withdrawal::Pending));
    assert_eq!(multisig.operation_bitmask(&request), 0b001);
    assert_eq!(Module::signs_count(&multisig.operation_bitmask(&request)), 1);

    assert_eq!(multisig.withdraw(&alice(), &wallet, &dave(), 10), Err(Error::AlreadyApproved));
    assert_eq!(multisig.operation_bitmask(&request), 0b001);

    let outcome = multisig.withdraw(&bob(), &wallet, &dave(), 10);
    let transfer = Transfer { from: wallet, to: dave(), value: 10 };
    assert_eq!(outcome, Ok(Withdrawal::Approved(transfer)));
    assert_eq!(multisig.operation_bitmask(&request), 0);
    assert_eq!(transfer.settle(true, &mut events), Ok(()));
    assert_eq!(events, vec![Event::WithdrawalExecuted(wallet, dave(), 10)]);

    assert_eq!(multisig.withdraw(&charlie(), &wallet, &dave(), 10), Ok(Withdrawal::Pending));
    assert_eq!(multisig.operation_bitmask(&request), 0b100);
    assert_eq!(events.len(), 1);
}

#[test]
fn withdraw_with_threshold_one_is_approved_at_once() {
    let mut multisig = Module::new();
    let mut events = Vec::new();
    let wallet = multisig.create(&alice(), vec![alice(), bob()], 1, &mut events).unwrap();
    let transfer = Transfer { from: wallet, to: charlie(), value: 7 };
    assert_eq!(
        multisig.withdraw(&bob(), &wallet, &charlie(), 7),
        Ok(Withdrawal::Approved(transfer))
    );
    assert_eq!(multisig.operation_bitmask(&operation_hash(&wallet, &charlie(), 7)), 0);
    assert_eq!(
        multisig.withdraw(&bob(), &wallet, &charlie(), 7),
        Ok(Withdrawal::Approved(transfer))
    );
}

#[test]
fn withdraw_needs_every_owner_where_the_threshold_says_so() {
    let mut multisig = Module::new();
    let mut events = Vec::new();
    let wallet = multisig.create(&alice(), vec![alice(), bob(), charlie()], 3, &mut events).unwrap();
    assert_eq!(multisig.withdraw(&charlie(), &wallet, &dave(), 1), Ok(Withdrawal::Pending));
    assert_eq!(multisig.withdraw(&alice(), &wallet, &dave(), 1), Ok(Withdrawal::Pending));
    assert_eq!(multisig.operation_bitmask(&operation_hash(&wallet, &dave(), 1)), 0b101);
    assert_eq!(
        multisig.withdraw(&bob(), &wallet, &dave(), 1),
        Ok(Withdrawal::Approved(Transfer { from: wallet, to: dave(), value: 1 }))
    );
}

#[test]
fn withdraw_requests_differ_by_recipient_and_amount() {
    let (mut multisig, wallet) = two_of_three();
    assert_eq!(multisig.withdraw(&alice(), &wallet, &dave(), 10), Ok(Withdrawal::Pending));
    assert_eq!(multisig.withdraw(&alice(), &wallet, &dave(), 11), Ok(Withdrawal::Pending));
    assert_eq!(multisig.withdraw(&alice(), &wallet, &bob(), 10), Ok(Withdrawal::Pending));
    assert_eq!(multisig.withdraw(&charlie(), &wallet, &dave(), 11), Ok(Withdrawal::Approved(
        Transfer { from: wallet, to: dave(), value: 11 }
    )));
    assert_eq!(multisig.operation_bitmask(&operation_hash(&wallet, &dave(), 10)), 0b001);
    assert_eq!(multisig.operation_bitmask(&operation_hash(&wallet, &dave(), 11)), 0);
    assert_eq!(multisig.operation_bitmask(&operation_hash(&wallet, &bob(), 10)), 0b001);
    assert_eq!(multisig.withdraw(&bob(), &wallet, &bob(), 10), Ok(Withdrawal::Approved(
        Transfer { from: wallet, to: bob(), value: 10 }
    )));
    assert_eq!(multisig.operation_bitmask(&operation_hash(&wallet, &dave(), 10)), 0b001);
}

#[test]
fn withdraw_requests_of_two_wallets_are_apart() {
    let mut multisig = Module::new();
    let mut events = Vec::new();
    let first = multisig.create(&alice(), vec![alice(), bob()], 2, &mut events).unwrap();
    let second = multisig.create(&alice(), vec![bob(), alice()], 2, &mut events).unwrap();
    assert_eq!(multisig.withdraw(&alice(), &first, &dave(), 5), Ok(Withdrawal::Pending));
    assert_eq!(multisig.withdraw(&alice(), &second, &dave(), 5), Ok(Withdrawal::Pending));
    assert_eq!(multisig.operation_bitmask(&operation_hash(&first, &dave(), 5)), 0b01);
    assert_eq!(multisig.operation_bitmask(&operation_hash(&second, &dave(), 5)), 0b10);
}

#[test]
fn withdraw_by_a_repeated_owner_counts_once() {
    let mut multisig = Module::new();
    let mut events = Vec::new();
    let wallet = multisig.create(&alice(), vec![alice(), alice(), bob()], 2, &mut events).unwrap();
    assert_eq!(multisig.withdraw(&alice(), &wallet, &dave(), 3), Ok(Withdrawal::Pending));
    assert_eq!(multisig.withdraw(&alice(), &wallet, &dave(), 3), Err(Error::AlreadyApproved));
    assert_eq!(multisig.operation_bitmask(&operation_hash(&wallet, &dave(), 3)), 0b001);
}

#[test]
fn withdraw_leaves_nonce_and_wallets_alone() {
    let (mut multisig, wallet) = two_of_three();
    assert_eq!(multisig.withdraw(&alice(), &wallet, &dave(), 10), Ok(Withdrawal::Pending));
    assert_eq!(multisig.global_nonce(), 1);
    assert_eq!(multisig.owners(&wallet), Ok(vec![alice(), bob(), charlie()]));
    assert_eq!(multisig.signatures_required(&wallet), Ok(2));
}

#[test]
fn settle_of_a_refused_transfer_fails_and_says_nothing() {
    let (mut multisig, wallet) = two_of_three();
    let mut events = Vec::new();
    assert_eq!(multisig.withdraw(&alice(), &wallet, &dave(), 10), Ok(Withdrawal::Pending));
    let outcome = multisig.withdraw(&charlie(), &wallet, &dave(), 10).unwrap();
    let transfer = match outcome {
        Withdrawal::Approved(transfer) => transfer,
        Withdrawal::Pending => panic!("two approvals of two were given"),
    };
    assert_eq!(transfer.settle(false, &mut events), Err(Error::TransferFailed));
    assert!(events.is_empty());
    assert_eq!(multisig.operation_bitmask(&operation_hash(&wallet, &dave(), 10)), 0);
    assert_eq!(multisig.withdraw(&alice(), &wallet, &dave(), 10), Ok(Withdrawal::Pending));
}

#[test]
fn settle_of_a_made_transfer_appends_its_notice() {
    let transfer = Transfer { from: alice(), to: bob(), value: u128::MAX };
    let mut events = vec![Event::WalletCreated(alice())];
    assert_eq!(transfer.settle(true, &mut events), Ok(()));
    assert_eq!(
        events,
        vec![Event::WalletCreated(alice()), Event::WithdrawalExecuted(alice(), bob(), u128::MAX)]
    );
}
