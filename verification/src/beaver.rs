//! The source of the values that the parties share before the computation:
//! Beaver triples, shared bits, inverse pairs and plain shared values

use vstd::prelude::*;

use crate::algebra::scalar::Scalar;
use crate::PARTY0;

verus! {

/// A source of pre-shared values. Each call hands out this party's additive
/// share of a value that the two parties generated together; the two parties'
/// sources must hand out the shares of the same values in the same order.
pub trait SharedValueSource {
    /// Fetch the next shared single bit
    fn next_shared_bit(&mut self) -> Scalar;

    /// Fetch the next shared batch of bits
    fn next_shared_bit_batch(&mut self, num_values: usize) -> (r: Vec<Scalar>)
        ensures
            r@.len() == num_values,
    {
        let mut values: Vec<Scalar> = Vec::new();
        let mut i: usize = 0;
        while i < num_values
            invariant
                i <= num_values,
                values@.len() == i,
            decreases num_values - i,
        {
            values.push(self.next_shared_bit());
            i += 1;
        }
        values
    }

    /// Fetch the next shared single value
    fn next_shared_value(&mut self) -> Scalar;

    /// Fetch a batch of shared single values
    fn next_shared_value_batch(&mut self, num_values: usize) -> (r: Vec<Scalar>)
        ensures
            r@.len() == num_values,
    {
        let mut values: Vec<Scalar> = Vec::new();
        let mut i: usize = 0;
        while i < num_values
            invariant
                i <= num_values,
                values@.len() == i,
            decreases num_values - i,
        {
            values.push(self.next_shared_value());
            i += 1;
        }
        values
    }

    /// Fetch the next pair of values that are multiplicative inverses of one
    /// another
    fn next_shared_inverse_pair(&mut self) -> (Scalar, Scalar);

    /// Fetch the next batch of multiplicative inverse pairs
    fn next_shared_inverse_pair_batch(&mut self, num_pairs: usize) -> (r: (Vec<Scalar>, Vec<Scalar>))
        ensures
            r.0@.len() == num_pairs,
            r.1@.len() == num_pairs,
    {
        let mut left: Vec<Scalar> = Vec::new();
        let mut right: Vec<Scalar> = Vec::new();
        let mut i: usize = 0;
        while i < num_pairs
            invariant
                i <= num_pairs,
                left@.len() == i,
                right@.len() == i,
            decreases num_pairs - i,
        {
            let (l, r) = self.next_shared_inverse_pair();
            left.push(l);
            right.push(r);
            i += 1;
        }
        (left, right)
    }

    /// Fetch the next Beaver triplet
    fn next_triplet(&mut self) -> (Scalar, Scalar, Scalar);

    /// Fetch a batch of Beaver triplets
    fn next_triplet_batch(&mut self, num_triplets: usize) -> (r: (
        Vec<Scalar>,
        Vec<Scalar>,
        Vec<Scalar>,
    ))
        ensures
            r.0@.len() == num_triplets,
            r.1@.len() == num_triplets,
            r.2@.len() == num_triplets,
    {
        let mut a_vals: Vec<Scalar> = Vec::new();
        let mut b_vals: Vec<Scalar> = Vec::new();
        let mut c_vals: Vec<Scalar> = Vec::new();
        let mut i: usize = 0;
        while i < num_triplets
            invariant
                i <= num_triplets,
                a_vals@.len() == i,
                b_vals@.len() == i,
                c_vals@.len() == i,
            decreases num_triplets - i,
        {
            let (a, b, c) = self.next_triplet();
            a_vals.push(a);
            b_vals.push(b);
            c_vals.push(c);
            i += 1;
        }
        (a_vals, b_vals, c_vals)
    }
}

/// A source for tests and examples that derives every value from the party's
/// id: the shares of the two parties add up to the triple `(2, 3, 6)`, to the
/// bit, the value and the inverse pair `1`
#[derive(Clone, Copy, Debug)]
pub struct PartyIDBeaverSource {
    /// The id of the local party
    pub party_id: u64,
}

impl PartyIDBeaverSource {
    /// Create a new source given the local party's id
    pub fn new(party_id: u64) -> (r: Self)
        ensures
            r.party_id == party_id,
    {
        PartyIDBeaverSource { party_id }
    }

    /// This party's share of the triple `(2, 3, 6)`
    pub open spec fn triplet_spec(party_id: u64) -> (Scalar, Scalar, Scalar) {
        if party_id == PARTY0 {
            (Scalar::from_u64_spec(1), Scalar::from_u64_spec(3), Scalar::from_u64_spec(2))
        } else {
            (Scalar::from_u64_spec(1), Scalar::from_u64_spec(0), Scalar::from_u64_spec(4))
        }
    }

    /// This party's share of the value `1`: the party's id
    pub open spec fn value_spec(party_id: u64) -> Scalar {
        Scalar::from_u64_spec(party_id)
    }

    /// This party's share of the value `1`
    pub fn share_of_one(&self) -> (r: Scalar)
        ensures
            r == Self::value_spec(self.party_id),
    {
        Scalar::from_u64(self.party_id)
    }

    /// This party's share of the triple `(2, 3, 6)`
    pub fn share_of_triplet(&self) -> (r: (Scalar, Scalar, Scalar))
        ensures
            r == Self::triplet_spec(self.party_id),
    {
        if self.party_id == PARTY0 {
            (Scalar::from_u64(1), Scalar::from_u64(3), Scalar::from_u64(2))
        } else {
            (Scalar::from_u64(1), Scalar::from_u64(0), Scalar::from_u64(4))
        }
    }
}

impl SharedValueSource for PartyIDBeaverSource {
    fn next_shared_bit(&mut self) -> (r: Scalar)
        ensures
            r == Self::value_spec(old(self).party_id),
            final(self).party_id == old(self).party_id,
    {
        self.share_of_one()
    }

    fn next_shared_value(&mut self) -> (r: Scalar)
        ensures
            r == Self::value_spec(old(self).party_id),
            final(self).party_id == old(self).party_id,
    {
        self.share_of_one()
    }

    fn next_shared_inverse_pair(&mut self) -> (r: (Scalar, Scalar))
        ensures
            r.0 == Self::value_spec(old(self).party_id),
            r.1 == Self::value_spec(old(self).party_id),
            final(self).party_id == old(self).party_id,
    {
        (self.share_of_one(), self.share_of_one())
    }

    fn next_triplet(&mut self) -> (r: (Scalar, Scalar, Scalar))
        ensures
            r == Self::triplet_spec(old(self).party_id),
            final(self).party_id == old(self).party_id,
    {
        self.share_of_triplet()
    }
}

} // verus!
