//! A key pair on the curve secp256k1, the address derived from its public
//! key, and signatures made with its secret key.
//!
//! The curve arithmetic, the random numbers and the base-58 alphabet belong
//! to the crates `secp256k1`, `rand` and `bs58`. What is proved here is what
//! the wallet does with their results.

use crate::hasher::{digest, sha256};
use rand::Rng;
use vstd::prelude::*;

verus! {

/// Length of a secret key, in bytes.
pub const SECRET_KEY_LEN: usize = 32;

/// Length of a public key in compressed form, in bytes.
pub const PUBLIC_KEY_LEN: usize = 33;

/// The version byte that every address starts with.
pub const ADDRESS_VERSION: u8 = 0;

/// How many bytes of the digest of the public key go into the address.
pub const KEY_DIGEST_LEN: usize = 20;

/// How many bytes of checksum end the address.
pub const CHECKSUM_LEN: usize = 4;

/// The public key that belongs to a secret key, in compressed form, as the
/// crate `secp256k1` computes it; `None` for bytes that are no secret key.
pub uninterp spec fn secp256k1_public_key(secret: Seq<u8>) -> Option<Seq<u8>>;

/// The ECDSA signature of a 32-byte digest under a secret key, in DER form,
/// as the crate `secp256k1` computes it with the nonce of RFC 6979; `None`
/// for bytes that are no secret key.
pub uninterp spec fn secp256k1_signature(secret: Seq<u8>, message: Seq<u8>) -> Option<Seq<u8>>;

/// The base-58 text of a byte string in the Bitcoin alphabet, as the crate
/// `bs58` computes it.
pub uninterp spec fn base58(data: Seq<u8>) -> Seq<char>;

/// Calls `rand::thread_rng` and `Rng::fill` on 32 bytes. The bytes differ
/// from call to call, so nothing is promised of them.
#[verifier::external_body]
fn random_bytes() -> [u8; 32] {
    let mut bytes = [0u8; 32];
    rand::thread_rng().fill(&mut bytes);
    bytes
}

/// Calls `secp256k1::SecretKey::from_slice`, and for bytes that it accepts
/// `PublicKey::from_secret_key` and `PublicKey::serialize`. The contract
/// only gives the result its name: the key returned, or its absence, depends
/// on the 32 bytes alone.
#[verifier::external_body]
fn derive_public_key(secret: &[u8; 32]) -> (r: Option<[u8; 33]>)
    ensures
        match r {
            Some(public) => secp256k1_public_key(secret@) == Some(public@),
            None => secp256k1_public_key(secret@) is None,
        },
{
    match secp256k1::SecretKey::from_slice(secret) {
        Ok(key) => {
            let context = secp256k1::Secp256k1::new();
            Some(secp256k1::PublicKey::from_secret_key(&context, &key).serialize())
        },
        Err(_) => None,
    }
}

/// Calls `secp256k1::SecretKey::from_slice` and `Message::from_slice`, and
/// for bytes that they accept `Secp256k1::sign` and
/// `Signature::serialize_der`. The contract only gives the result its name:
/// the signature returned, or its absence, depends on the secret key and the
/// message alone.
#[verifier::external_body]
fn sign_digest(secret: &[u8; 32], message: &[u8; 32]) -> (r: Option<Vec<u8>>)
    ensures
        match r {
            Some(signature) => secp256k1_signature(secret@, message@) == Some(signature@),
            None => secp256k1_signature(secret@, message@) is None,
        },
{
    match (secp256k1::SecretKey::from_slice(secret), secp256k1::Message::from_slice(message)) {
        (Ok(key), Ok(digest)) => {
            let context = secp256k1::Secp256k1::new();
            Some(context.sign(&digest, &key).serialize_der().to_vec())
        },
        _ => None,
    }
}

/// Calls `bs58::encode` and `EncodeBuilder::into_string`. The contract only
/// gives the result its name.
#[verifier::external_body]
fn base58_text(data: &[u8]) -> (text: String)
    ensures
        text@ == base58(data@),
{
    bs58::encode(data).into_string()
}

/// The bytes that an address is the base-58 text of: the version byte, the
/// first `KEY_DIGEST_LEN` bytes of the digest of the public key, and as
/// checksum the first `CHECKSUM_LEN` bytes of the digest of the digest of
/// those.
pub open spec fn address_payload(public_key: Seq<u8>) -> Seq<u8> {
    let body = seq![ADDRESS_VERSION] + sha256(public_key).subrange(0, KEY_DIGEST_LEN as int);
    body + sha256(sha256(body)).subrange(0, CHECKSUM_LEN as int)
}

/// The address of a public key.
pub open spec fn address_of(public_key: Seq<u8>) -> Seq<char> {
    base58(address_payload(public_key))
}

/// A secret key and the public key that belongs to it.
pub struct Wallet {
    private_key: [u8; 32],
    public_key: [u8; 33],
}

impl Wallet {
    /// The secret key.
    pub closed spec fn secret(&self) -> Seq<u8> {
        self.private_key@
    }

    /// The public key, in compressed form.
    pub closed spec fn public(&self) -> Seq<u8> {
        self.public_key@
    }

    /// A wallet with a secret key drawn at random; `None` where the bytes
    /// drawn are no secret key.
    pub fn new() -> (r: Option<Wallet>)
        ensures
            match r {
                Some(wallet) => secp256k1_public_key(wallet.secret()) == Some(wallet.public()),
                None => true,
            },
    {
        Wallet::from_secret_key(random_bytes())
    }

    /// The wallet of the secret key `private_key`; `None` where the bytes
    /// are no secret key.
    pub fn from_secret_key(private_key: [u8; 32]) -> (r: Option<Wallet>)
        ensures
            match r {
                Some(wallet) => wallet.secret() == private_key@ && secp256k1_public_key(
                    private_key@,
                ) == Some(wallet.public()),
                None => secp256k1_public_key(private_key@) is None,
            },
    {
        match derive_public_key(&private_key) {
            Some(public_key) => Some(Wallet { private_key, public_key }),
            None => None,
        }
    }

    /// The public key, in compressed form.
    pub fn public_key(&self) -> (key: &[u8; 33])
        ensures
            key@ == self.public(),
    {
        &self.public_key
    }

    /// The address of this wallet.
    pub fn get_address(&self) -> (address: String)
        ensures
            address@ == address_of(self.public()),
    {
        let key_digest = digest(self.public_key.as_slice());
        let mut payload: Vec<u8> = Vec::new();
        payload.push(ADDRESS_VERSION);
        let mut i: usize = 0;
        while i < KEY_DIGEST_LEN
            invariant
                i <= KEY_DIGEST_LEN,
                payload@ == seq![ADDRESS_VERSION] + key_digest@.subrange(0, i as int),
            decreases KEY_DIGEST_LEN - i,
        {
            payload.push(key_digest[i]);
            i += 1;
        }
        let ghost body = payload@;
        let inner = digest(payload.as_slice());
        let checksum = digest(inner.as_slice());
        let mut j: usize = 0;
        while j < CHECKSUM_LEN
            invariant
                j <= CHECKSUM_LEN,
                payload@ == body + checksum@.subrange(0, j as int),
            decreases CHECKSUM_LEN - j,
        {
            payload.push(checksum[j]);
            j += 1;
        }
        base58_text(payload.as_slice())
    }

    /// The signature of `transaction_hash` under the secret key, in DER
    /// form; `None` where none can be made.
    pub fn sign_transaction(&self, transaction_hash: &[u8; 32]) -> (r: Option<Vec<u8>>)
        ensures
            match r {
                Some(signature) => secp256k1_signature(self.secret(), transaction_hash@) == Some(
                    signature@,
                ),
                None => secp256k1_signature(self.secret(), transaction_hash@) is None,
            },
    {
        sign_digest(&self.private_key, transaction_hash)
    }
}

} // verus!
