//! Hash commitments: a party binds itself to a value by publishing the digest
//! of the value and a random blinder, and opens the commitment later by
//! revealing both

use sha3::Digest;
use sha3::Sha3_256;
use vstd::prelude::*;

use crate::algebra::scalar::scalar_encoding;
use crate::algebra::scalar::Scalar;
use crate::algebra::stark_curve::StarkPoint;

verus! {

/// What SHA3-256 returns on a byte string
pub uninterp spec fn sha3_256_digest(data: Seq<u8>) -> Seq<u8>;

/// The SHA3-256 digest of a byte string.
///
/// Trusted: `Sha3_256::digest` is a function of its input alone; its result
/// goes by the name `sha3_256_digest`.
#[verifier::external_body]
fn sha3_256(data: &[u8]) -> (r: Vec<u8>)
    ensures
        r@ == sha3_256_digest(data@),
{
    Sha3_256::digest(data).to_vec()
}

/// The commitment to an encoded value under a blinder: the digest of the
/// value's bytes followed by the blinder's, read as a scalar
pub open spec fn commitment_of(value: Seq<u8>, blinder: Scalar) -> Scalar {
    Scalar::reduced(sha3_256_digest(value + scalar_encoding(blinder@)))
}

/// Commit to an encoded value under a blinder
pub fn hash_commit(value: Vec<u8>, blinder: &Scalar) -> (r: Scalar)
    ensures
        r == commitment_of(value@, *blinder),
{
    let mut bytes = value;
    let mut blinder_bytes = blinder.to_bytes_be();
    bytes.append(&mut blinder_bytes);
    let digest = sha3_256(bytes.as_slice());
    Scalar::from_be_bytes_mod_order(digest.as_slice())
}

/// A hash commitment to a curve point, together with its opening
#[derive(Clone, Copy, Debug)]
pub struct HashCommitment {
    /// The committed value
    pub value: StarkPoint,
    /// The blinder used in the commitment
    pub blinder: Scalar,
    /// The value of the commitment
    pub commitment: Scalar,
}

impl HashCommitment {
    /// Commit to a point under a blinder
    pub fn commit(value: StarkPoint, blinder: Scalar) -> (r: HashCommitment)
        ensures
            r.value == value,
            r.blinder == blinder,
            r.commitment == commitment_of(value.encoding(), blinder),
    {
        let commitment = hash_commit(value.to_bytes(), &blinder);
        HashCommitment { value, blinder, commitment }
    }

    /// Whether the value and the blinder open the commitment
    pub fn verify(&self) -> (r: bool)
        ensures
            r == (self.commitment == commitment_of(self.value.encoding(), self.blinder)),
    {
        let expected = hash_commit(self.value.to_bytes(), &self.blinder);
        expected == self.commitment
    }
}

/// A hash commitment to a scalar, together with its opening
#[derive(Clone, Copy, Debug)]
pub struct ScalarHashCommitment {
    /// The committed value
    pub value: Scalar,
    /// The blinder used in the commitment
    pub blinder: Scalar,
    /// The value of the commitment
    pub commitment: Scalar,
}

impl ScalarHashCommitment {
    /// Commit to a scalar under a blinder
    pub fn commit(value: Scalar, blinder: Scalar) -> (r: ScalarHashCommitment)
        ensures
            r.value == value,
            r.blinder == blinder,
            r.commitment == commitment_of(scalar_encoding(value@), blinder),
    {
        let commitment = hash_commit(value.to_bytes_be(), &blinder);
        ScalarHashCommitment { value, blinder, commitment }
    }

    /// Whether the value and the blinder open the commitment
    pub fn verify(&self) -> (r: bool)
        ensures
            r == (self.commitment == commitment_of(scalar_encoding(self.value@), self.blinder)),
    {
        let expected = hash_commit(self.value.to_bytes_be(), &self.blinder);
        expected == self.commitment
    }
}

} // verus!
