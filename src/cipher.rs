//! Interfaces through which the library reaches cipher implementations.
//! The library decides what to do with their results; it never holds the
//! primitives themselves.

use vstd::prelude::*;

use crate::data::Bytes;
use crate::suite::{AsymmetricCipherAlgorithm, DigestAlgorithm, SymmetricCipherAlgorithm};

verus! {

#[derive(Copy, Clone, Debug, Hash, PartialEq, Eq, Structural)]
#[non_exhaustive]
pub enum CipherSuiteError {
    Unsupported,
}

/// The contents of optional byte strings, as values.
pub open spec fn opt_slice_view(t: Option<&[u8]>) -> Option<Seq<u8>> {
    match t {
        Some(x) => Some(x@),
        None => None,
    }
}

pub open spec fn opt_vec_view(t: Option<Vec<u8>>) -> Option<Seq<u8>> {
    match t {
        Some(x) => Some(x@),
        None => None,
    }
}

pub open spec fn opt_bytes_view(t: Option<Bytes>) -> Option<Seq<u8>> {
    match t {
        Some(x) => Some(x@),
        None => None,
    }
}

/// A public-key cipher, selected once by algorithm tag.
pub trait AsymmetricCipherSpi {
    /// Whether this implementation takes `signature` as a valid signature of
    /// `message` under `public_key`. Each implementation checked by Verus
    /// gives its own definition; the library's proofs never rely on this
    /// default, which accepts nothing.
    open spec fn accepts(
        &self,
        alg: AsymmetricCipherAlgorithm,
        public_key: Seq<u8>,
        message: Seq<u8>,
        signature: Seq<u8>,
    ) -> bool {
        false
    }

    fn init(&mut self, alg: AsymmetricCipherAlgorithm) -> Result<(), CipherSuiteError>;

    /// Whether `signature` is a valid signature of `message` under `public_key`.
    fn verify(
        &self,
        alg: AsymmetricCipherAlgorithm,
        public_key: &[u8],
        message: &[u8],
        signature: &[u8],
    ) -> (r: bool)
        ensures
            r == self.accepts(alg, public_key@, message@, signature@),
    ;
}

/// A symmetric cipher used to wrap and unwrap item keys.
pub trait SymmetricCipherSpi {
    /// Whether `ciphertext` with `tag` is a sealing of `plaintext` under `key`
    /// and `iv` by this implementation. Each implementation checked by Verus
    /// gives its own definition; the library's proofs never rely on this
    /// default, which holds of nothing.
    open spec fn sealed(
        &self,
        alg: SymmetricCipherAlgorithm,
        key: Seq<u8>,
        iv: Seq<u8>,
        plaintext: Seq<u8>,
        ciphertext: Seq<u8>,
        tag: Option<Seq<u8>>,
    ) -> bool {
        false
    }

    /// What this implementation recovers from `ciphertext` and `tag` under
    /// `key` and `iv`, if it accepts them. Each implementation checked by
    /// Verus gives its own definition; the library's proofs never rely on
    /// this default, which opens nothing.
    open spec fn opened(
        &self,
        alg: SymmetricCipherAlgorithm,
        key: Seq<u8>,
        iv: Seq<u8>,
        ciphertext: Seq<u8>,
        tag: Option<Seq<u8>>,
    ) -> Option<Seq<u8>> {
        None
    }

    fn init(&mut self, alg: SymmetricCipherAlgorithm) -> Result<(), CipherSuiteError>;

    /// Encrypts `plaintext`; gives the ciphertext and, for an authenticated
    /// cipher, the tag.
    fn wrap(
        &self,
        alg: SymmetricCipherAlgorithm,
        key: &[u8],
        iv: &[u8],
        plaintext: &[u8],
    ) -> (r: Option<(Vec<u8>, Option<Vec<u8>>)>)
        ensures
            r matches Some(out) ==> self.sealed(alg, key@, iv@, plaintext@, out.0@, opt_vec_view(out.1)),
    ;

    /// Decrypts `ciphertext`, checking `tag` first for an authenticated
    /// cipher; `None` when the key, the data or the tag is wrong.
    fn unwrap(
        &self,
        alg: SymmetricCipherAlgorithm,
        key: &[u8],
        iv: &[u8],
        ciphertext: &[u8],
        tag: Option<&[u8]>,
    ) -> (r: Option<Vec<u8>>)
        ensures
            match r {
                Some(v) => self.opened(alg, key@, iv@, ciphertext@, opt_slice_view(tag)) == Some(v@),
                None => self.opened(alg, key@, iv@, ciphertext@, opt_slice_view(tag)) is None,
            },
    ;
}

/// The algorithm tags for which an implementation is available.
pub struct CipherRegistry {
    pub symmetric: Vec<SymmetricCipherAlgorithm>,
    pub asymmetric: Vec<AsymmetricCipherAlgorithm>,
    pub digest: Vec<DigestAlgorithm>,
}

impl CipherRegistry {
    pub fn require_symmetric(&self, alg: SymmetricCipherAlgorithm) -> (r: Result<(), CipherSuiteError>)
        ensures
            r is Ok <==> self.symmetric@.contains(alg),
    {
        let mut i: usize = 0;
        while i < self.symmetric.len()
            invariant
                i <= self.symmetric@.len(),
                forall|j: int| 0 <= j < i ==> self.symmetric@[j] != alg,
            decreases self.symmetric@.len() - i,
        {
            if self.symmetric[i] == alg {
                return Ok(());
            }
            i = i + 1;
        }
        Err(CipherSuiteError::Unsupported)
    }

    pub fn require_asymmetric(&self, alg: AsymmetricCipherAlgorithm) -> (r: Result<(), CipherSuiteError>)
        ensures
            r is Ok <==> self.asymmetric@.contains(alg),
    {
        let mut i: usize = 0;
        while i < self.asymmetric.len()
            invariant
                i <= self.asymmetric@.len(),
                forall|j: int| 0 <= j < i ==> self.asymmetric@[j] != alg,
            decreases self.asymmetric@.len() - i,
        {
            if self.asymmetric[i] == alg {
                return Ok(());
            }
            i = i + 1;
        }
        Err(CipherSuiteError::Unsupported)
    }

    pub fn require_digest(&self, alg: DigestAlgorithm) -> (r: Result<(), CipherSuiteError>)
        ensures
            r is Ok <==> self.digest@.contains(alg),
    {
        let mut i: usize = 0;
        while i < self.digest.len()
            invariant
                i <= self.digest@.len(),
                forall|j: int| 0 <= j < i ==> self.digest@[j] != alg,
            decreases self.digest@.len() - i,
        {
            if self.digest[i] == alg {
                return Ok(());
            }
            i = i + 1;
        }
        Err(CipherSuiteError::Unsupported)
    }
}

} // verus!
