use passman::acl::{AclMode, AclRow, AclTable};
use passman::api::{protocol_id, ItemKeyInfo, ItemKeys};
use passman::auth::{AuthenticatedSession, SessionRegistry};
use passman::cipher::{CipherRegistry, CipherSuiteError, SymmetricCipherSpi};
use passman::data::Bytes;
use passman::envelope::{seal_key_info, unwrap_item_key, wrap_item_key};
use passman::error::{Error, ErrorCode};
use passman::mediator::fetch_key_entry;
use passman::suite::{AsymmetricCipherAlgorithm, DigestAlgorithm, SymmetricCipherAlgorithm};
use passman::uuid::Uuid;

/// A toy cipher: xor with key and IV; its tag sums everything it covers.
struct Toy;

fn tag_of(key: &[u8], iv: &[u8], ct: &[u8]) -> Vec<u8> {
    let mut t: u32 = 7;
    for (i, b) in key.iter().chain(iv).chain(ct).enumerate() {
        t = t.wrapping_mul(31).wrapping_add(*b as u32 + i as u32);
    }
    t.to_le_bytes().to_vec()
}

fn xor(key: &[u8], iv: &[u8], data: &[u8]) -> Vec<u8> {
    data.iter().enumerate().map(|(i, b)| b ^ key[i % key.len()] ^ iv[i % iv.len()]).collect()
}

impl SymmetricCipherSpi for Toy {
    fn init(&mut self, _alg: SymmetricCipherAlgorithm) -> Result<(), CipherSuiteError> {
        Ok(())
    }

    fn wrap(&self, alg: SymmetricCipherAlgorithm, key: &[u8], iv: &[u8], plaintext: &[u8]) -> Option<(Vec<u8>, Option<Vec<u8>>)> {
        let ct = xor(key, iv, plaintext);
        let tag = if alg.is_aead() { Some(tag_of(key, iv, &ct)) } else { None };
        Some((ct, tag))
    }

    fn unwrap(&self, alg: SymmetricCipherAlgorithm, key: &[u8], iv: &[u8], ciphertext: &[u8], tag: Option<&[u8]>) -> Option<Vec<u8>> {
        if alg.is_aead() {
            if tag? != tag_of(key, iv, ciphertext).as_slice() {
                return None;
            }
        }
        Some(xor(key, iv, ciphertext))
    }
}

/// A cipher that always hands back a tag, whatever the algorithm.
struct AlwaysTag;

impl SymmetricCipherSpi for AlwaysTag {
    fn init(&mut self, _alg: SymmetricCipherAlgorithm) -> Result<(), CipherSuiteError> {
        Ok(())
    }

    fn wrap(&self, _alg: SymmetricCipherAlgorithm, _key: &[u8], _iv: &[u8], plaintext: &[u8]) -> Option<(Vec<u8>, Option<Vec<u8>>)> {
        Some((plaintext.to_vec(), Some(vec![0])))
    }

    fn unwrap(&self, _alg: SymmetricCipherAlgorithm, _key: &[u8], _iv: &[u8], _ct: &[u8], _tag: Option<&[u8]>) -> Option<Vec<u8>> {
        None
    }
}

fn item(alg: SymmetricCipherAlgorithm, refs: Vec<Uuid>) -> ItemKeys {
    let tag = if alg.is_aead() { Some(Bytes::new(vec![9; 16])) } else { None };
    ItemKeys { base_cipher: alg, key_refs: refs, item_iv: Bytes::new(vec![3; 12]), item_auth_tag: tag }
}

fn content_key() -> Bytes {
    Bytes::new((100..132u8).collect())
}

#[test]
fn wrap_then_unwrap_gives_the_content_key() {
    for alg in [SymmetricCipherAlgorithm::Aes128Gcm, SymmetricCipherAlgorithm::Aes256Cbc, SymmetricCipherAlgorithm::Chacha20] {
        let k = Uuid::new(1, 1);
        let wrapping = Bytes::new(vec![0x42; 16]);
        let info = wrap_item_key(&Toy, &content_key(), &wrapping, alg, Bytes::new(vec![5; 12])).unwrap();
        assert_eq!(info.item_key_iv, Bytes::new(vec![5; 12]));
        assert_eq!(info.item_auth_tag.is_some(), alg.is_aead());
        let got = unwrap_item_key(&Toy, &item(alg, vec![k]), &vec![(k, info)], &vec![(k, wrapping)]).unwrap();
        assert_eq!(got, content_key());
    }
}

fn tampered(f: impl Fn(&mut ItemKeyInfo)) -> Result<Bytes, Error> {
    let alg = SymmetricCipherAlgorithm::Aes256Gcm;
    let k = Uuid::new(1, 1);
    let wrapping = Bytes::new(vec![0x42; 16]);
    let mut info = wrap_item_key(&Toy, &content_key(), &wrapping, alg, Bytes::new(vec![5; 12])).unwrap();
    f(&mut info);
    unwrap_item_key(&Toy, &item(alg, vec![k]), &vec![(k, info)], &vec![(k, wrapping)])
}

#[test]
fn tampering_makes_unwrap_fail() {
    assert!(tampered(|_| {}).is_ok());
    let e = tampered(|i| {
        let mut v = i.secured_item_key.duplicate().into_inner();
        v[0] ^= 1;
        i.secured_item_key = Bytes::new(v);
    })
    .unwrap_err();
    assert_eq!(e.code(), ErrorCode::NotFound);
    let e = tampered(|i| i.item_key_iv = Bytes::new(vec![6; 12])).unwrap_err();
    assert_eq!(e.code(), ErrorCode::NotFound);
    let e = tampered(|i| i.item_auth_tag = Some(Bytes::new(vec![0, 0, 0, 0]))).unwrap_err();
    assert_eq!(e.code(), ErrorCode::NotFound);
    let e = tampered(|i| i.item_auth_tag = None).unwrap_err();
    assert_eq!(e.code(), ErrorCode::Malformed);
}

#[test]
fn unwrap_tries_refs_in_order() {
    let alg = SymmetricCipherAlgorithm::Aes128Cbc;
    let (a, b, c) = (Uuid::new(1, 0), Uuid::new(2, 0), Uuid::new(3, 0));
    let ka = Bytes::new(vec![1; 16]);
    let kb = Bytes::new(vec![2; 16]);
    let ia = wrap_item_key(&Toy, &Bytes::new(vec![7; 8]), &ka, alg, Bytes::new(vec![1; 4])).unwrap();
    let ib = wrap_item_key(&Toy, &content_key(), &kb, alg, Bytes::new(vec![1; 4])).unwrap();
    let infos = vec![(a, ia), (b, ib)];
    let got = unwrap_item_key(&Toy, &item(alg, vec![c, b, a]), &infos, &vec![(a, ka.duplicate()), (b, kb)]).unwrap();
    assert_eq!(got, content_key());
    let got = unwrap_item_key(&Toy, &item(alg, vec![c, b, a]), &infos, &vec![(a, ka)]).unwrap();
    assert_eq!(got, Bytes::new(vec![7; 8]));
}

#[test]
fn unwrap_without_keys_is_not_found() {
    let alg = SymmetricCipherAlgorithm::Aes128Gcm;
    let k = Uuid::new(1, 1);
    let e = unwrap_item_key(&Toy, &item(alg, vec![k]), &vec![], &vec![(k, Bytes::new(vec![1; 16]))]).unwrap_err();
    assert_eq!(e.code(), ErrorCode::NotFound);
    let mut bad = item(alg, vec![k]);
    bad.item_auth_tag = None;
    assert_eq!(bad.check().unwrap_err().code(), ErrorCode::Malformed);
    let e = unwrap_item_key(&Toy, &bad, &vec![], &vec![]).unwrap_err();
    assert_eq!(e.code(), ErrorCode::Malformed);
}

#[test]
fn wrapping_entry_tag_must_fit_cipher() {
    let e = seal_key_info(SymmetricCipherAlgorithm::Aes128Cbc, Bytes::new(vec![1]), vec![2], Some(vec![3])).unwrap_err();
    assert_eq!(e.code(), ErrorCode::Malformed);
    let e = seal_key_info(SymmetricCipherAlgorithm::Aes128Gcm, Bytes::new(vec![1]), vec![2], None).unwrap_err();
    assert_eq!(e.code(), ErrorCode::Malformed);
    let info = seal_key_info(SymmetricCipherAlgorithm::Aes128Gcm, Bytes::new(vec![1]), vec![2], Some(vec![3])).unwrap();
    assert_eq!(info.secured_item_key, Bytes::new(vec![2]));
    assert_eq!(info.item_auth_tag, Some(Bytes::new(vec![3])));
    let e = wrap_item_key(&AlwaysTag, &content_key(), &Bytes::new(vec![1]), SymmetricCipherAlgorithm::Aes128Cbc, Bytes::new(vec![1])).unwrap_err();
    assert_eq!(e.code(), ErrorCode::Malformed);
}

#[test]
fn rewrapping_leaves_item_encryption_alone() {
    let (a, b) = (Uuid::new(1, 0), Uuid::new(2, 0));
    let mut keys = item(SymmetricCipherAlgorithm::Aes256Gcm, vec![a]);
    assert!(keys.add_key_ref(b));
    assert!(!keys.add_key_ref(a));
    assert_eq!(keys.key_refs, vec![a, b]);
    keys.remove_key_ref(a);
    assert_eq!(keys.key_refs, vec![b]);
    assert_eq!(keys.item_iv, Bytes::new(vec![3; 12]));
    assert_eq!(keys.item_auth_tag, Some(Bytes::new(vec![9; 16])));
}

#[test]
fn key_entries_need_authorization() {
    let user = Uuid::new(1, 0);
    let token = Uuid::new(77, 77);
    let mut reg = SessionRegistry::new();
    reg.insert(AuthenticatedSession { token, user_id: user, expires_at: 1000 });
    let global = AclTable::from_rows(&vec![]);
    let allow = vec![AclTable::from_rows(&vec![AclRow { subject: user, action: "Read".to_string(), mode: AclMode::Allow }])];
    let none: Vec<AclTable> = vec![];
    let k = Uuid::new(9, 9);
    let info = seal_key_info(SymmetricCipherAlgorithm::Aes128Cbc, Bytes::new(vec![1]), vec![2], None).unwrap();
    let infos = vec![(k, info)];
    assert_eq!(fetch_key_entry(&reg, token, 10, &allow, &global, &infos, k).unwrap(), 0);
    let e = fetch_key_entry(&reg, token, 10, &allow, &global, &infos, Uuid::new(8, 8)).unwrap_err();
    assert_eq!(e.code(), ErrorCode::NotFound);
    let e = fetch_key_entry(&reg, token, 10, &none, &global, &infos, Uuid::new(8, 8)).unwrap_err();
    assert_eq!(e.code(), ErrorCode::NotAuthorized);
    let e = fetch_key_entry(&reg, token, 1000, &allow, &global, &infos, k).unwrap_err();
    assert_eq!(e.code(), ErrorCode::NotAuthenticated);
}

#[test]
fn registry_reports_unsupported_tags() {
    let reg = CipherRegistry {
        symmetric: vec![SymmetricCipherAlgorithm::Aes256Gcm],
        asymmetric: vec![AsymmetricCipherAlgorithm::Ec25519],
        digest: vec![DigestAlgorithm::Sha256],
    };
    assert!(reg.require_symmetric(SymmetricCipherAlgorithm::Aes256Gcm).is_ok());
    assert_eq!(reg.require_symmetric(SymmetricCipherAlgorithm::Chacha20), Err(CipherSuiteError::Unsupported));
    assert!(reg.require_asymmetric(AsymmetricCipherAlgorithm::Ec25519).is_ok());
    assert_eq!(reg.require_asymmetric(AsymmetricCipherAlgorithm::Rsa2048), Err(CipherSuiteError::Unsupported));
    assert!(reg.require_digest(DigestAlgorithm::Sha256).is_ok());
    assert_eq!(reg.require_digest(DigestAlgorithm::Sha3_512), Err(CipherSuiteError::Unsupported));
}

#[test]
fn errors_and_identity() {
    let e = Error::new(ErrorCode::Conflict, "taken");
    assert_eq!(e.code(), ErrorCode::Conflict);
    assert_eq!(e.message(), "taken");
    assert_eq!(protocol_id(), Uuid::new(0x8de3_9e6d_fd80_1916, 0x0190_38bd_15b8_75b5));
}
