//! The checksum engine: which digest a recorded checksum asks for, and
//! whether a file's content has it.

use crate::text::push_decimal;
use sha2::{Digest, Sha256};
use vstd::prelude::*;
use vstd::string::StringExecFns;

verus! {

/// The MD5 digest of a byte string.
pub uninterp spec fn md5_of(data: Seq<u8>) -> Seq<u8>;

/// The SHA-256 digest of a byte string.
pub uninterp spec fn sha256_of(data: Seq<u8>) -> Seq<u8>;

/// `md5::compute`: the MD5 digest of the data. The contract names the
/// result.
#[verifier::external_body]
fn md5_digest(data: &[u8]) -> (digest: Vec<u8>)
    ensures
        digest@ == md5_of(data@),
{
    let digest: [u8; 16] = md5::compute(data).into();
    digest.to_vec()
}

/// `Sha256::digest` of the `sha2` crate: the SHA-256 digest of the data.
/// The contract names the result.
#[verifier::external_body]
fn sha256_digest(data: &[u8]) -> (digest: Vec<u8>)
    ensures
        digest@ == sha256_of(data@),
{
    Sha256::digest(data).to_vec()
}

/// A digest algorithm.
#[derive(Clone, Copy, Debug, PartialEq, Eq, Structural)]
pub enum Algorithm {
    /// MD5, with digests of 16 bytes.
    Md5,
    /// SHA-256, with digests of 32 bytes.
    Sha256,
}

/// Why a checksum could not be verified.
#[derive(Clone, Copy, Debug, PartialEq, Eq, Structural)]
pub enum DigestError {
    /// The recorded checksum has a length that no known algorithm gives.
    UnknownLength(usize),
}

/// The algorithm that gives digests of `len` bytes.
pub open spec fn algorithm_for(len: nat) -> Option<Algorithm> {
    if len == 16 {
        Some(Algorithm::Md5)
    } else if len == 32 {
        Some(Algorithm::Sha256)
    } else {
        None
    }
}

/// Whether the content has the recorded checksum, under the algorithm that
/// the checksum's length asks for; nothing where no algorithm fits.
pub open spec fn content_matches(expected: Seq<u8>, content: Seq<u8>) -> Option<bool> {
    match algorithm_for(expected.len()) {
        Some(algorithm) => Some(algorithm.digest_of(content) == expected),
        None => None,
    }
}

impl Algorithm {
    /// The digest of the data under this algorithm.
    pub open spec fn digest_of(self, data: Seq<u8>) -> Seq<u8> {
        match self {
            Algorithm::Md5 => md5_of(data),
            Algorithm::Sha256 => sha256_of(data),
        }
    }

    /// Picks the algorithm by the length of a recorded checksum: 16 bytes
    /// ask for MD5, 32 bytes for SHA-256, and any other length is an error.
    pub fn for_length(len: usize) -> (picked: Result<Algorithm, DigestError>)
        ensures
            match picked {
                Ok(algorithm) => algorithm_for(len as nat) == Some(algorithm),
                Err(e) => algorithm_for(len as nat) is None && e == DigestError::UnknownLength(len),
            },
    {
        if len == 16 {
            Ok(Algorithm::Md5)
        } else if len == 32 {
            Ok(Algorithm::Sha256)
        } else {
            Err(DigestError::UnknownLength(len))
        }
    }

    /// Computes the digest of the data.
    pub fn digest(self, data: &[u8]) -> (digest: Vec<u8>)
        ensures
            digest@ == self.digest_of(data@),
    {
        match self {
            Algorithm::Md5 => md5_digest(data),
            Algorithm::Sha256 => sha256_digest(data),
        }
    }

    /// Tells whether the data has the digest `expected`.
    pub fn matches(self, expected: &[u8], data: &[u8]) -> (same: bool)
        ensures
            same == (self.digest_of(data@) == expected@),
    {
        let digest = self.digest(data);
        crate::bytes::bytes_equal(digest.as_slice(), expected)
    }
}

impl DigestError {
    /// The text of the error.
    pub open spec fn message_of(self) -> Seq<char> {
        match self {
            DigestError::UnknownLength(len) => "ERROR: Unknown hash length "@
                + crate::text::decimal(len as nat),
        }
    }

    /// Writes the error as text.
    pub fn message(&self) -> (text: String)
        ensures
            text@ == self.message_of(),
    {
        match self {
            DigestError::UnknownLength(len) => {
                let mut text = String::from_str("ERROR: Unknown hash length ");
                push_decimal(&mut text, *len as u64);
                text
            },
        }
    }
}

/// Verifies a recorded checksum against a file's content: the digest is
/// computed with the algorithm that the checksum's length asks for, and
/// compared byte for byte.
pub fn check_digest(expected: &[u8], content: &[u8]) -> (verdict: Result<bool, DigestError>)
    ensures
        match verdict {
            Ok(same) => content_matches(expected@, content@) == Some(same),
            Err(e) => content_matches(expected@, content@) is None && e
                == DigestError::UnknownLength(expected.len()),
        },
{
    match Algorithm::for_length(expected.len()) {
        Ok(algorithm) => Ok(algorithm.matches(expected, content)),
        Err(e) => Err(e),
    }
}

} // verus!
