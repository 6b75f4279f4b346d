//! Key material: the room's symmetric key, derived from the password and
//! the room name, and the participant's own secret key.

use crate::bytes::array_from_slice;
use vstd::prelude::*;
use vstd::string::StringSliceAdditionalSpecFns;

verus! {

/// The 32 bytes that Argon2id, version 0x13 with the default cost
/// parameters, derives from a password and a salt.
pub uninterp spec fn argon2id_key(password: Seq<u8>, salt: Seq<u8>) -> Seq<u8>;

/// The BLAKE3 digest of some bytes.
pub uninterp spec fn blake3_digest(data: Seq<u8>) -> Seq<u8>;

/// Smallest salt that Argon2 accepts, in bytes.
pub const MIN_SALT_LEN: usize = 8;

/// Largest password and largest salt that Argon2 accepts, in bytes.
pub const MAX_ARGON2_INPUT_LEN: usize = 0xFFFF_FFFF;

/// Derives 32 bytes with `Argon2::hash_password_into`, which refuses a
/// password or a salt of more than 2^32 - 1 bytes and a salt of fewer than
/// 8.
#[verifier::external_body]
fn argon2id(password: &[u8], salt: &[u8]) -> (key: [u8; 32])
    requires
        password@.len() <= MAX_ARGON2_INPUT_LEN,
        MIN_SALT_LEN <= salt@.len() <= MAX_ARGON2_INPUT_LEN,
    ensures
        key@ == argon2id_key(password@, salt@),
{
    let mut key = [0u8; 32];
    let hasher = argon2::Argon2::new(
        argon2::Algorithm::Argon2id,
        argon2::Version::V0x13,
        argon2::Params::default(),
    );
    hasher.hash_password_into(password, salt, &mut key).expect("Failed to hash the password");
    key
}

/// The 32 bytes of the digest that `blake3::hash` computes.
#[verifier::external_body]
fn blake3_hash(data: &[u8]) -> (digest: [u8; 32])
    ensures
        digest@ == blake3_digest(data@),
{
    *blake3::hash(data).as_bytes()
}

/// 32 bytes from the thread's random generator, drawn with `rand::random`.
/// Nothing is known of their value.
#[verifier::external_body]
pub(crate) fn random_bytes() -> (bytes: [u8; 32]) {
    rand::random()
}

/// The public hash of a room name, which salts the room's key.
pub fn room_hash(room: &str) -> (hash: [u8; 32])
    ensures
        hash@ == blake3_digest(room.spec_bytes()),
{
    blake3_hash(room.as_bytes())
}

/// The room's symmetric key: Argon2id of the password, salted with the
/// hash of the room name.
pub fn hash_password(password: &str, topic_hash: &[u8]) -> (key: [u8; 32])
    requires
        password.spec_bytes().len() <= MAX_ARGON2_INPUT_LEN,
        MIN_SALT_LEN <= topic_hash@.len() <= MAX_ARGON2_INPUT_LEN,
    ensures
        key@ == argon2id_key(password.spec_bytes(), topic_hash@),
{
    argon2id(password.as_bytes(), topic_hash)
}

/// The symmetric key of the room with the given name and password, or
/// nothing for a password that is too long to hash.
pub fn derive_room_key(password: &str, room: &str) -> (key: Option<[u8; 32]>)
    ensures
        key is Some <==> password.spec_bytes().len() <= MAX_ARGON2_INPUT_LEN,
        key matches Some(k) ==> k@ == argon2id_key(
            password.spec_bytes(),
            blake3_digest(room.spec_bytes()),
        ),
{
    if password.as_bytes().len() > MAX_ARGON2_INPUT_LEN {
        return None;
    }
    let salt = room_hash(room);
    Some(hash_password(password, salt.as_slice()))
}

/// What the keychain holds for a user.
#[derive(Clone, Debug, PartialEq, Eq)]
pub enum StoredSecret {
    /// These bytes.
    Found(Vec<u8>),
    /// No entry.
    Missing,
}

/// What to do about the participant's secret key.
#[derive(Clone, Copy, Debug, PartialEq, Eq)]
pub enum SecretKeyPlan {
    /// Use the stored key.
    Use([u8; 32]),
    /// Store this new key, then use it.
    StoreAndUse([u8; 32]),
    /// The stored bytes are no key.
    Invalid,
}

/// Decides on the secret key: a stored key of 32 bytes is used, stored
/// bytes of another length are refused, and without an entry the fresh key
/// is stored and used.
pub fn plan_secret_key(stored: StoredSecret, fresh: [u8; 32]) -> (plan: SecretKeyPlan)
    ensures
        match stored {
            StoredSecret::Found(bytes) => if bytes@.len() == 32 {
                plan matches SecretKeyPlan::Use(key) && key@ == bytes@
            } else {
                plan == SecretKeyPlan::Invalid
            },
            StoredSecret::Missing => plan == SecretKeyPlan::StoreAndUse(fresh),
        },
{
    match stored {
        StoredSecret::Found(bytes) => match array_from_slice::<32>(bytes.as_slice()) {
            Some(key) => SecretKeyPlan::Use(key),
            None => SecretKeyPlan::Invalid,
        },
        StoredSecret::Missing => SecretKeyPlan::StoreAndUse(fresh),
    }
}

} // verus!
