//! Algorithm tags. Each set is open: new tags may be added later.

use vstd::prelude::*;

verus! {

#[derive(Copy, Clone, Debug, Hash, PartialEq, Eq, Structural)]
#[non_exhaustive]
pub enum SymmetricCipherAlgorithm {
    Aes128Gcm,
    Aes128Cbc,
    Aes256Gcm,
    Aes256Cbc,
    Chacha20,
}

#[derive(Copy, Clone, Debug, Hash, PartialEq, Eq, Structural)]
#[non_exhaustive]
pub enum AsymmetricCipherAlgorithm {
    Rsa2048,
    Rsa4096,
    Ec25519,
}

#[derive(Copy, Clone, Debug, Hash, PartialEq, Eq, Structural)]
#[non_exhaustive]
pub enum DigestAlgorithm {
    Sha256,
    Sha224,
    Sha384,
    Sha512,
    Sha512_256,
    Sha512_224,
    Sha3_256,
    Sha3_512,
}

/// Whether the cipher authenticates what it encrypts, producing a tag.
pub open spec fn is_aead(alg: SymmetricCipherAlgorithm) -> bool {
    alg == SymmetricCipherAlgorithm::Aes128Gcm || alg == SymmetricCipherAlgorithm::Aes256Gcm
}

/// The length in bytes of a digest made by `alg`.
pub open spec fn digest_len(alg: DigestAlgorithm) -> nat {
    match alg {
        DigestAlgorithm::Sha256 => 32,
        DigestAlgorithm::Sha224 => 28,
        DigestAlgorithm::Sha384 => 48,
        DigestAlgorithm::Sha512 => 64,
        DigestAlgorithm::Sha512_256 => 32,
        DigestAlgorithm::Sha512_224 => 28,
        DigestAlgorithm::Sha3_256 => 32,
        DigestAlgorithm::Sha3_512 => 64,
    }
}

impl SymmetricCipherAlgorithm {
    pub fn is_aead(self) -> (r: bool)
        ensures
            r == is_aead(self),
    {
        match self {
            SymmetricCipherAlgorithm::Aes128Gcm | SymmetricCipherAlgorithm::Aes256Gcm => true,
            _ => false,
        }
    }
}

impl DigestAlgorithm {
    /// How many bytes a digest of this kind has.
    pub fn output_len(self) -> (r: usize)
        ensures
            r == digest_len(self),
    {
        match self {
            DigestAlgorithm::Sha256 => 32,
            DigestAlgorithm::Sha224 => 28,
            DigestAlgorithm::Sha384 => 48,
            DigestAlgorithm::Sha512 => 64,
            DigestAlgorithm::Sha512_256 => 32,
            DigestAlgorithm::Sha512_224 => 28,
            DigestAlgorithm::Sha3_256 => 32,
            DigestAlgorithm::Sha3_512 => 64,
        }
    }
}

} // verus!
