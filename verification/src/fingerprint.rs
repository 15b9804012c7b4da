//! Fingerprinting: byte encodings of the values that identify a wallet or a
//! withdrawal request, and the digest taken of them.

use vstd::prelude::*;
use vstd::bytes::spec_u64_to_le_bytes;
use vstd::bytes::spec_u128_to_le_bytes;
use vstd::bytes::lemma_auto_spec_u64_to_from_le_bytes;
use vstd::bytes::lemma_auto_spec_u128_to_from_le_bytes;
use crate::ids::AccountId;
use crate::ids::Balance;
use crate::ids::Fingerprint;

verus! {

/// The unkeyed BLAKE2b digest of 32 bytes of `data`.
pub uninterp spec fn blake2_256_digest(data: Seq<u8>) -> Seq<u8>;

/// Two different byte strings with one digest.
pub open spec fn digest_collision(a: Seq<u8>, b: Seq<u8>) -> bool {
    a != b && blake2_256_digest(a) == blake2_256_digest(b)
}

/// Calls `blake2_rfc::blake2b::blake2b` for a digest of 32 bytes without a
/// key. Trusted: the digest depends on the bytes of `data` and on nothing
/// else, so it is the value that `blake2_256_digest` names.
#[verifier::external_body]
fn blake2_256(data: &[u8]) -> (digest: [u8; 32])
    ensures
        digest@ == blake2_256_digest(data@),
{
    let hash = blake2_rfc::blake2b::blake2b(32, &[], data);
    let mut digest = [0u8; 32];
    digest.copy_from_slice(hash.as_bytes());
    digest
}

/// Calls `parity_codec::Encode::encode` on a `u64`. Trusted: the result is
/// the eight bytes of the value, lowest byte first.
#[verifier::external_body]
fn encode_u64(value: u64) -> (bytes: Vec<u8>)
    ensures
        bytes@ == spec_u64_to_le_bytes(value),
{
    parity_codec::Encode::encode(&value)
}

/// Calls `parity_codec::Encode::encode` on a `u128`. Trusted: the result is
/// the sixteen bytes of the value, lowest byte first.
#[verifier::external_body]
fn encode_u128(value: u128) -> (bytes: Vec<u8>)
    ensures
        bytes@ == spec_u128_to_le_bytes(value),
{
    parity_codec::Encode::encode(&value)
}

/// Calls `parity_codec::Encode::encode` on an array of 32 bytes. Trusted: the
/// result is those 32 bytes in their order, with nothing before or after.
#[verifier::external_body]
fn encode_bytes32(value: &[u8; 32]) -> (bytes: Vec<u8>)
    ensures
        bytes@ == value@,
{
    parity_codec::Encode::encode(value)
}

/// Calls `parity_codec::Decode::decode` for an array of 32 bytes, reading
/// from `bytes`. Trusted: the first 32 bytes come back where there are as
/// many, and nothing where there are fewer.
#[verifier::external_body]
fn decode_bytes32(bytes: &[u8]) -> (value: Option<[u8; 32]>)
    ensures
        match value {
            Some(array) => bytes@.len() >= 32 && array@ == bytes@.subrange(0, 32),
            None => bytes@.len() < 32,
        },
{
    let mut input = bytes;
    parity_codec::Decode::decode(&mut input)
}

/// The bytes hashed for a wallet's identifier: the creator, then the nonce.
pub open spec fn spec_wallet_preimage(sender: Seq<u8>, nonce: u64) -> Seq<u8> {
    sender + spec_u64_to_le_bytes(nonce)
}

/// The identifier of the wallet that `sender` creates at `nonce`.
pub open spec fn spec_wallet_id(sender: Seq<u8>, nonce: u64) -> Seq<u8> {
    blake2_256_digest(spec_wallet_preimage(sender, nonce))
}

/// The bytes hashed for a withdrawal request: the wallet, the recipient,
/// then the amount.
pub open spec fn spec_operation_preimage(wallet: Seq<u8>, to: Seq<u8>, value: Balance) -> Seq<u8> {
    wallet + to + spec_u128_to_le_bytes(value)
}

/// The fingerprint of the request that `wallet` pay `value` to `to`.
pub open spec fn spec_operation_hash(wallet: Seq<u8>, to: Seq<u8>, value: Balance) -> Seq<u8> {
    blake2_256_digest(spec_operation_preimage(wallet, to, value))
}

/// Encodes the creator and the nonce, one after the other.
pub fn wallet_preimage(sender: &AccountId, nonce: u64) -> (bytes: Vec<u8>)
    ensures
        bytes@ == spec_wallet_preimage(sender@, nonce),
{
    let mut bytes: Vec<u8> = Vec::new();
    let mut part = encode_bytes32(&sender.0);
    bytes.append(&mut part);
    let mut part = encode_u64(nonce);
    bytes.append(&mut part);
    assert(bytes@ =~= spec_wallet_preimage(sender@, nonce));
    bytes
}

/// Encodes the wallet, the recipient and the amount, one after the other.
pub fn operation_preimage(wallet: &AccountId, to: &AccountId, value: Balance) -> (bytes: Vec<u8>)
    ensures
        bytes@ == spec_operation_preimage(wallet@, to@, value),
{
    let mut bytes: Vec<u8> = Vec::new();
    let mut part = encode_bytes32(&wallet.0);
    bytes.append(&mut part);
    let mut part = encode_bytes32(&to.0);
    bytes.append(&mut part);
    let mut part = encode_u128(value);
    bytes.append(&mut part);
    assert(bytes@ =~= spec_operation_preimage(wallet@, to@, value));
    bytes
}

/// Derives the identifier of the wallet that `sender` creates at `nonce`.
pub fn wallet_id(sender: &AccountId, nonce: u64) -> (id: AccountId)
    ensures
        id@ == spec_wallet_id(sender@, nonce),
{
    let preimage = wallet_preimage(sender, nonce);
    let digest = blake2_256(preimage.as_slice());
    let encoded = encode_bytes32(&digest);
    let decoded = decode_bytes32(encoded.as_slice());
    assert(encoded@.subrange(0, 32) =~= digest@);
    AccountId(decoded.unwrap())
}

/// Fingerprints the request that `wallet` pay `value` to `to`.
pub fn operation_hash(wallet: &AccountId, to: &AccountId, value: Balance) -> (hash: Fingerprint)
    ensures
        hash@ == spec_operation_hash(wallet@, to@, value),
{
    let preimage = operation_preimage(wallet, to, value);
    Fingerprint(blake2_256(preimage.as_slice()))
}

/// Different creators or different nonces are encoded to different bytes.
pub proof fn lemma_wallet_preimage_injective(
    sender1: AccountId,
    nonce1: u64,
    sender2: AccountId,
    nonce2: u64,
)
    ensures
        spec_wallet_preimage(sender1@, nonce1) == spec_wallet_preimage(sender2@, nonce2) ==> sender1@
            == sender2@ && nonce1 == nonce2,
{
    lemma_auto_spec_u64_to_from_le_bytes();
    let left = spec_wallet_preimage(sender1@, nonce1);
    let right = spec_wallet_preimage(sender2@, nonce2);
    if left == right {
        assert(left.subrange(0, 32) =~= sender1@);
        assert(right.subrange(0, 32) =~= sender2@);
        assert(left.subrange(32, 40) =~= spec_u64_to_le_bytes(nonce1));
        assert(right.subrange(32, 40) =~= spec_u64_to_le_bytes(nonce2));
    }
}

/// Requests that differ in the wallet, the recipient or the amount are
/// encoded to different bytes.
pub proof fn lemma_operation_preimage_injective(
    wallet1: AccountId,
    to1: AccountId,
    value1: Balance,
    wallet2: AccountId,
    to2: AccountId,
    value2: Balance,
)
    ensures
        spec_operation_preimage(wallet1@, to1@, value1) == spec_operation_preimage(
            wallet2@,
            to2@,
            value2,
        ) ==> wallet1@ == wallet2@ && to1@ == to2@ && value1 == value2,
{
    lemma_auto_spec_u128_to_from_le_bytes();
    let left = spec_operation_preimage(wallet1@, to1@, value1);
    let right = spec_operation_preimage(wallet2@, to2@, value2);
    if left == right {
        assert(left.subrange(0, 32) =~= wallet1@);
        assert(right.subrange(0, 32) =~= wallet2@);
        assert(left.subrange(32, 64) =~= to1@);
        assert(right.subrange(32, 64) =~= to2@);
        assert(left.subrange(64, 80) =~= spec_u128_to_le_bytes(value1));
        assert(right.subrange(64, 80) =~= spec_u128_to_le_bytes(value2));
    }
}

} // verus!
