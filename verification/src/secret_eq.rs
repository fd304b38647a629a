//! Constant-time comparison for the workspace master password.
//!
//! Both secrets are hashed with SHA-256 and the two fixed-size digests are
//! compared with a constant-time equality, so neither the position of the first
//! differing byte nor the length of the secrets shows in the running time.

use vstd::prelude::*;
use sha2::{Digest, Sha256};
use subtle::ConstantTimeEq;
use vstd::string::StringSliceAdditionalSpecFns;

verus! {

/// The SHA-256 digest of a byte string, as computed by the `sha2` crate.
pub uninterp spec fn sha256_of(bytes: Seq<u8>) -> Seq<u8>;

/// Calls `sha2::Sha256::digest` on `bytes` and converts the 32-byte output to
/// an array. Claims only that the result is the (named) SHA-256 digest of the
/// input bytes, which depends on those bytes alone.
#[verifier::external_body]
fn sha256_digest(bytes: &[u8]) -> (r: [u8; 32])
    ensures
        r@ == sha256_of(bytes@),
{
    Sha256::digest(bytes).into()
}

/// Calls `subtle::ConstantTimeEq::ct_eq` on two 32-byte arrays (compared as
/// slices) and converts the `Choice` to a `bool`. Claims that the result is
/// true exactly when the two arrays hold the same bytes, which is what the
/// crate's slice implementation computes.
#[verifier::external_body]
fn ct_eq_digests(a: &[u8; 32], b: &[u8; 32]) -> (r: bool)
    ensures
        r == (a@ == b@),
{
    a.ct_eq(b).into()
}

/// Whether two secrets are equal, in time independent of how they differ.
pub fn secrets_match(a: &str, b: &str) -> (r: bool)
    ensures
        r == (sha256_of(a.spec_bytes()) == sha256_of(b.spec_bytes())),
{
    let left = sha256_digest(a.as_bytes());
    let right = sha256_digest(b.as_bytes());
    ct_eq_digests(&left, &right)
}

} // verus!
