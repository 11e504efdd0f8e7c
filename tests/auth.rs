use passman::auth::{complete_challenge, AuthenticatedSession, ChallengeStore, SessionRegistry, CHALLENGE_LIFETIME};
use passman::cipher::{AsymmetricCipherSpi, CipherSuiteError};
use passman::data::Bytes;
use passman::error::ErrorCode;
use passman::suite::{AsymmetricCipherAlgorithm, DigestAlgorithm};
use passman::users::{UserDirectory, UserRecord};
use passman::uuid::Uuid;

/// Accepts a signature that is the message with every byte xored with the
/// first byte of the public key.
struct XorSigner;

impl AsymmetricCipherSpi for XorSigner {
    fn init(&mut self, _alg: AsymmetricCipherAlgorithm) -> Result<(), CipherSuiteError> {
        Ok(())
    }

    fn verify(&self, _alg: AsymmetricCipherAlgorithm, public_key: &[u8], message: &[u8], signature: &[u8]) -> bool {
        message.len() == signature.len() && message.iter().zip(signature).all(|(m, s)| m ^ public_key[0] == *s)
    }
}

fn sign(message: &[u8], key: u8) -> Bytes {
    Bytes::new(message.iter().map(|m| m ^ key).collect())
}

fn alice() -> Uuid {
    Uuid::new(10, 20)
}

fn directory() -> UserDirectory {
    let mut users = UserDirectory::new();
    let registered = users.register(UserRecord {
        userid: alice(),
        address_digest_algorithm: DigestAlgorithm::Sha256,
        address_hash: vec![0; 32],
        key_pair_algorithm: AsymmetricCipherAlgorithm::Ec25519,
        pubkey: vec![0x5a],
        sealed_priv_key: vec![1, 2, 3],
        root_key_id: Uuid::new(1, 1),
        root_object_id: Uuid::new(2, 2),
    });
    assert!(registered);
    users
}

fn challenge() -> Vec<u8> {
    (0..32u8).collect()
}

#[test]
fn unknown_user_gets_not_found() {
    let users = directory();
    let mut store = ChallengeStore::new();
    let e = store.begin_challenge(&users, Uuid::new(9, 9), Uuid::new(7, 7), Bytes::new(challenge()), 0).unwrap_err();
    assert_eq!(e.code(), ErrorCode::NotFound);
    assert_eq!(store.len(), 0);
}

#[test]
fn challenge_length_follows_digest() {
    let users = directory();
    let mut store = ChallengeStore::new();
    let e = store.begin_challenge(&users, alice(), Uuid::new(7, 7), Bytes::new(vec![1; 20]), 0).unwrap_err();
    assert_eq!(e.code(), ErrorCode::Malformed);
    let resp = store.begin_challenge(&users, alice(), Uuid::new(7, 7), Bytes::new(challenge()), 0).unwrap();
    assert_eq!(resp.challenge_digest, DigestAlgorithm::Sha256);
    assert_eq!(resp.challenge_bytes.into_inner(), challenge());
    assert_eq!(DigestAlgorithm::Sha512.output_len(), 64);
}

#[test]
fn session_id_cannot_be_reused() {
    let users = directory();
    let mut store = ChallengeStore::new();
    store.begin_challenge(&users, alice(), Uuid::new(7, 7), Bytes::new(challenge()), 0).unwrap();
    let e = store.begin_challenge(&users, alice(), Uuid::new(7, 7), Bytes::new(challenge()), 0).unwrap_err();
    assert_eq!(e.code(), ErrorCode::Conflict);
    assert_eq!(store.len(), 1);
}

#[test]
fn challenge_answers_once() {
    let users = directory();
    let mut store = ChallengeStore::new();
    let sid = Uuid::new(7, 7);
    store.begin_challenge(&users, alice(), sid, Bytes::new(challenge()), 100).unwrap();
    let sig = sign(&challenge(), 0x5a);
    let token = Uuid::new(55, 66);
    let s = store.fulfill_challenge(&users, &XorSigner, sid, &sig, token, 110, 3600).unwrap();
    assert_eq!(s, AuthenticatedSession { token, user_id: alice(), expires_at: 3710 });
    let e = store.fulfill_challenge(&users, &XorSigner, sid, &sig, token, 111, 3600).unwrap_err();
    assert_eq!(e.code(), ErrorCode::NotAuthenticated);
}

#[test]
fn failed_answer_consumes_challenge() {
    let users = directory();
    let mut store = ChallengeStore::new();
    let sid = Uuid::new(7, 7);
    store.begin_challenge(&users, alice(), sid, Bytes::new(challenge()), 100).unwrap();
    let bad = sign(&challenge(), 0x11);
    let e = store.fulfill_challenge(&users, &XorSigner, sid, &bad, Uuid::new(1, 2), 101, 60).unwrap_err();
    assert_eq!(e.code(), ErrorCode::NotAuthenticated);
    let good = sign(&challenge(), 0x5a);
    let e = store.fulfill_challenge(&users, &XorSigner, sid, &good, Uuid::new(1, 2), 102, 60).unwrap_err();
    assert_eq!(e.code(), ErrorCode::NotAuthenticated);
}

#[test]
fn expired_or_unknown_challenge_is_rejected() {
    let users = directory();
    let mut store = ChallengeStore::new();
    let sid = Uuid::new(7, 7);
    store.begin_challenge(&users, alice(), sid, Bytes::new(challenge()), 100).unwrap();
    let good = sign(&challenge(), 0x5a);
    let e = store
        .fulfill_challenge(&users, &XorSigner, sid, &good, Uuid::new(1, 2), 100 + CHALLENGE_LIFETIME, 60)
        .unwrap_err();
    assert_eq!(e.code(), ErrorCode::NotAuthenticated);
    let e = store.fulfill_challenge(&users, &XorSigner, Uuid::new(8, 8), &good, Uuid::new(1, 2), 101, 60).unwrap_err();
    assert_eq!(e.code(), ErrorCode::NotAuthenticated);
    let s = store.fulfill_challenge(&users, &XorSigner, sid, &good, Uuid::new(1, 2), 100 + CHALLENGE_LIFETIME - 1, 60);
    assert!(s.is_ok());
}

#[test]
fn completing_follows_the_signature_check() {
    let s = complete_challenge(true, alice(), Uuid::new(3, 4), u64::MAX - 5, 60).unwrap();
    assert_eq!(s.expires_at, u64::MAX);
    assert_eq!(s.user_id, alice());
    let e = complete_challenge(false, alice(), Uuid::new(3, 4), 0, 60).unwrap_err();
    assert_eq!(e.code(), ErrorCode::NotAuthenticated);
}

#[test]
fn bearer_sessions_resolve_until_expiry_or_revocation() {
    let mut reg = SessionRegistry::new();
    let t1 = Uuid::new(1, 1);
    let t2 = Uuid::new(2, 2);
    assert!(reg.insert(AuthenticatedSession { token: t1, user_id: alice(), expires_at: 100 }));
    assert!(!reg.insert(AuthenticatedSession { token: t1, user_id: alice(), expires_at: 500 }));
    assert!(reg.insert(AuthenticatedSession { token: t2, user_id: Uuid::new(5, 5), expires_at: 100 }));
    assert_eq!(reg.resolve(t1, 99), Some(alice()));
    assert_eq!(reg.resolve(t1, 100), None);
    assert_eq!(reg.resolve(Uuid::new(3, 3), 0), None);
    reg.revoke(t1);
    assert_eq!(reg.resolve(t1, 0), None);
    assert_eq!(reg.resolve(t2, 0), Some(Uuid::new(5, 5)));
}

#[test]
fn token_comparison() {
    assert!(Uuid::new(1, 2).ct_eq(&Uuid::new(1, 2)));
    assert!(!Uuid::new(1, 2).ct_eq(&Uuid::new(1, 3)));
    assert!(!Uuid::new(0, 2).ct_eq(&Uuid::new(1, 2)));
    assert!(Uuid::new(4, 4).same(&Uuid::new(4, 4)));
}

#[test]
fn deleting_a_user_ends_its_sessions() {
    let mut users = directory();
    let mut reg = SessionRegistry::new();
    let other = Uuid::new(5, 5);
    reg.insert(AuthenticatedSession { token: Uuid::new(1, 1), user_id: alice(), expires_at: 100 });
    reg.insert(AuthenticatedSession { token: Uuid::new(2, 2), user_id: other, expires_at: 100 });
    reg.insert(AuthenticatedSession { token: Uuid::new(3, 3), user_id: alice(), expires_at: 100 });
    assert!(users.remove(alice()));
    assert!(!users.remove(alice()));
    assert_eq!(users.find(alice()), None);
    reg.revoke_user(alice());
    assert_eq!(reg.resolve(Uuid::new(1, 1), 0), None);
    assert_eq!(reg.resolve(Uuid::new(3, 3), 0), None);
    assert_eq!(reg.resolve(Uuid::new(2, 2), 0), Some(other));
}

#[test]
fn spent_challenges_are_discarded() {
    let users = directory();
    let mut store = ChallengeStore::new();
    store.begin_challenge(&users, alice(), Uuid::new(7, 1), Bytes::new(challenge()), 0).unwrap();
    store.begin_challenge(&users, alice(), Uuid::new(7, 2), Bytes::new(challenge()), 100).unwrap();
    store.begin_challenge(&users, alice(), Uuid::new(7, 3), Bytes::new(challenge()), 100).unwrap();
    let sig = sign(&challenge(), 0x5a);
    store.fulfill_challenge(&users, &XorSigner, Uuid::new(7, 3), &sig, Uuid::new(9, 9), 150, 60).unwrap();
    store.discard_spent(150);
    assert_eq!(store.len(), 1);
    let s = store.fulfill_challenge(&users, &XorSigner, Uuid::new(7, 2), &sig, Uuid::new(9, 8), 150, 60);
    assert!(s.is_ok());
}
