//! The values exchanged with clients, independent of their wire encoding.

use vstd::prelude::*;

use crate::data::{pack_version, Bytes, Version};
use crate::suite::{AsymmetricCipherAlgorithm, DigestAlgorithm, SymmetricCipherAlgorithm};
use crate::uuid::Uuid;

verus! {

/// The protocol version this library speaks.
pub fn protocol_version() -> (r: Version)
    ensures
        r@ == pack_version(0, 1, 0),
{
    Version::from_parts(0, 1, 0)
}

/// The identifier of this protocol family, `019038bd-15b8-75b5-8de3-9e6dfd801916`,
/// as (low half, high half).
pub fn protocol_id() -> (r: Uuid)
    ensures
        r@ == (0x8de3_9e6d_fd80_1916u64, 0x0190_38bd_15b8_75b5u64),
{
    Uuid::new(0x8de3_9e6d_fd80_1916u64, 0x0190_38bd_15b8_75b5u64)
}

/// Where a user's key hierarchy and item tree start.
#[derive(Clone, Debug, Hash, PartialEq, Eq)]
pub struct UserRootInfo {
    pub root_object: Uuid,
    pub root_key: Uuid,
}

#[derive(Clone, Debug, Hash, PartialEq, Eq)]
pub struct UserPublicKey {
    pub pub_key: Bytes,
    pub pub_key_alg: AsymmetricCipherAlgorithm,
}

#[derive(Clone, Debug, Hash, PartialEq, Eq)]
pub struct NewUserRequest {
    pub user_address: String,
    pub initial_auth: UserAuth,
}

#[derive(Clone, Debug, Hash, PartialEq, Eq)]
pub struct NewUserResponse {
    pub user_id: Uuid,
}

/// A user's key pair, with the private half sealed under a key derived by
/// the client.
#[derive(Clone, Debug, Hash, PartialEq, Eq)]
pub struct UserAuth {
    pub kdf_base_digest_alg: DigestAlgorithm,
    pub auth_key_alg: AsymmetricCipherAlgorithm,
    pub pub_key: Bytes,
    pub priv_key_iv: Bytes,
    pub secured_private_key: Bytes,
}

#[derive(Clone, Debug, Hash, PartialEq, Eq)]
pub struct AuthChallengeRequest {
    pub user_id: Uuid,
    pub challenge_session_id: Uuid,
}

#[derive(Clone, Debug, Hash, PartialEq, Eq)]
pub struct AuthChallengeResponse {
    pub challenge_digest: DigestAlgorithm,
    pub challenge_bytes: Bytes,
}

#[derive(Clone, Debug, Hash, PartialEq, Eq)]
pub struct AuthResponse {
    pub challenge_signature: Bytes,
}

/// An item's content key wrapped under one wrapping key.
#[derive(Clone, Debug, Hash, PartialEq, Eq)]
pub struct ItemKeyInfo {
    pub secured_item_key: Bytes,
    pub item_key_iv: Bytes,
    pub item_auth_tag: Option<Bytes>,
}

/// How an item's content is encrypted, and the keys that may unwrap its
/// content key, in the order they are tried.
#[derive(Clone, Debug, Hash, PartialEq, Eq)]
pub struct ItemKeys {
    pub base_cipher: SymmetricCipherAlgorithm,
    pub key_refs: Vec<Uuid>,
    pub item_iv: Bytes,
    pub item_auth_tag: Option<Bytes>,
}

} // verus!
