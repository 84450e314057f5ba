//! The SPDZ invariants of authenticated scalars, and the proofs that the
//! operations on authenticated scalars keep them.
//!
//! An authenticated scalar `x` is held by the two parties as shares of `x`,
//! shares of a MAC, and a public modifier `m` that both parties know. With
//! the MAC key `k`, itself shared, the shares of the MAC add up to
//! `k * (x + m)`. The operations below are the ones that the gates of the
//! authenticated layer compute on the values of a party's three results.

use vstd::arithmetic::div_mod::*;
use vstd::prelude::*;

use crate::algebra::scalar::field_add;
use crate::algebra::scalar::field_mul;
use crate::algebra::scalar::field_neg;
use crate::algebra::scalar::field_sub;
use crate::algebra::scalar::lemma_modulus_bounds;
use crate::algebra::scalar::scalar_modulus;
use crate::algebra::scalar::Scalar;
use crate::fabric::result::Value;
use crate::PARTY0;

verus! {

/// The representative of a scalar as an integer
pub open spec fn iv(scalar: Scalar) -> int {
    scalar@ as int
}

/// Whether two integers stand for the same field element
pub open spec fn congruent(a: int, b: int) -> bool {
    a % (scalar_modulus() as int) == b % (scalar_modulus() as int)
}

/// Sums of congruent integers are congruent
pub proof fn lemma_congruent_add(a: int, b: int, c: int, d: int)
    requires
        congruent(a, b),
        congruent(c, d),
    ensures
        congruent(a + c, b + d),
{
    lemma_modulus_bounds();
    let n = scalar_modulus() as int;
    lemma_add_mod_noop(a, c, n);
    lemma_add_mod_noop(b, d, n);
}

/// Differences of congruent integers are congruent
pub proof fn lemma_congruent_sub(a: int, b: int, c: int, d: int)
    requires
        congruent(a, b),
        congruent(c, d),
    ensures
        congruent(a - c, b - d),
{
    lemma_modulus_bounds();
    let n = scalar_modulus() as int;
    lemma_sub_mod_noop(a, c, n);
    lemma_sub_mod_noop(b, d, n);
}

/// Products of congruent integers are congruent
pub proof fn lemma_congruent_mul(a: int, b: int, c: int, d: int)
    requires
        congruent(a, b),
        congruent(c, d),
    ensures
        congruent(a * c, b * d),
{
    lemma_modulus_bounds();
    let n = scalar_modulus() as int;
    lemma_mul_mod_noop_general(a, c, n);
    lemma_mul_mod_noop_general(b, d, n);
}

/// An integer is congruent to its remainder
pub proof fn lemma_congruent_mod(a: int)
    ensures
        congruent(a % (scalar_modulus() as int), a),
        0 <= a % (scalar_modulus() as int) < scalar_modulus(),
{
    lemma_modulus_bounds();
    lemma_mod_twice(a, scalar_modulus() as int);
    lemma_mod_bound(a, scalar_modulus() as int);
}

/// The representatives of the results of the field operations
pub proof fn lemma_operation_views(a: Scalar, b: Scalar)
    ensures
        a.add_spec(b)@ == field_add(a@, b@),
        a.sub_spec(b)@ == field_sub(a@, b@),
        a.mul_spec(b)@ == field_mul(a@, b@),
        a.neg_spec()@ == field_neg(a@),
        congruent(iv(a.add_spec(b)), iv(a) + iv(b)),
        congruent(iv(a.sub_spec(b)), iv(a) - iv(b)),
        congruent(iv(a.mul_spec(b)), iv(a) * iv(b)),
        congruent(iv(a.neg_spec()), -(iv(a))),
{
    lemma_modulus_bounds();
    let n = scalar_modulus() as int;
    lemma_mod_bound(iv(a) + iv(b), n);
    lemma_mod_bound(iv(a) - iv(b), n);
    lemma_mod_bound(iv(a) * iv(b), n);
    lemma_mod_bound(-(iv(a)), n);
    Scalar::lemma_view_of_nat(field_add(a@, b@));
    Scalar::lemma_view_of_nat(field_sub(a@, b@));
    Scalar::lemma_view_of_nat(field_mul(a@, b@));
    Scalar::lemma_view_of_nat(field_neg(a@));
    lemma_congruent_mod(iv(a) + iv(b));
    lemma_congruent_mod(iv(a) - iv(b));
    lemma_congruent_mod(iv(a) * iv(b));
    lemma_congruent_mod(-(iv(a)));
}

/// The values of the three results that a party holds of an authenticated
/// scalar
pub struct ScalarPart {
    /// The party's share of the value
    pub share: Scalar,
    /// The party's share of the MAC
    pub mac: Scalar,
    /// The public modifier
    pub public_modifier: Scalar,
}

impl ScalarPart {
    /// What a party holds of the sum of two authenticated scalars
    pub open spec fn plus(self, other: ScalarPart) -> ScalarPart {
        ScalarPart {
            share: self.share.add_spec(other.share),
            mac: self.mac.add_spec(other.mac),
            public_modifier: self.public_modifier.add_spec(other.public_modifier),
        }
    }

    /// What a party holds of the difference of two authenticated scalars
    pub open spec fn minus(self, other: ScalarPart) -> ScalarPart {
        ScalarPart {
            share: self.share.sub_spec(other.share),
            mac: self.mac.sub_spec(other.mac),
            public_modifier: self.public_modifier.sub_spec(other.public_modifier),
        }
    }

    /// What a party holds of an authenticated scalar that is masked by a
    /// value of a Beaver triple: share and MAC are subtracted, and the public
    /// modifier is kept, that of the triple's value being zero
    pub open spec fn masked_by(self, other: ScalarPart) -> ScalarPart {
        ScalarPart {
            share: self.share.sub_spec(other.share),
            mac: self.mac.sub_spec(other.mac),
            public_modifier: self.public_modifier,
        }
    }

    /// What a party holds of the negation of an authenticated scalar; the
    /// public modifier is kept
    pub open spec fn negated(self) -> ScalarPart {
        ScalarPart {
            share: self.share.neg_spec(),
            mac: self.mac.neg_spec(),
            public_modifier: self.public_modifier,
        }
    }

    /// What a party holds of the sum of an authenticated scalar and a public
    /// one: the first party adds the public scalar to its share
    pub open spec fn plus_public(self, party_id: u64, public: Scalar) -> ScalarPart {
        ScalarPart {
            share: if party_id == PARTY0 {
                self.share.add_spec(public)
            } else {
                self.share
            },
            mac: self.mac,
            public_modifier: self.public_modifier.sub_spec(public),
        }
    }

    /// What a party holds of the difference of an authenticated scalar and a
    /// public one: the first party subtracts the public scalar from its share
    pub open spec fn minus_public(self, party_id: u64, public: Scalar) -> ScalarPart {
        ScalarPart {
            share: if party_id == PARTY0 {
                self.share.sub_spec(public)
            } else {
                self.share
            },
            mac: self.mac,
            public_modifier: self.public_modifier.add_spec(public),
        }
    }

    /// What a party holds of the product of an authenticated scalar and a
    /// public one
    pub open spec fn times(self, public: Scalar) -> ScalarPart {
        ScalarPart {
            share: public.mul_spec(self.share),
            mac: public.mul_spec(self.mac),
            public_modifier: public.mul_spec(self.public_modifier),
        }
    }

    /// The party's share of the MAC check for an opened value:
    /// `key * (value + modifier) - mac`
    pub open spec fn mac_check(self, key: Scalar, value: Scalar) -> Scalar {
        key.mul_spec(value.add_spec(self.public_modifier)).sub_spec(self.mac)
    }
}

/// The value that the two parties' shares add up to
pub open spec fn opened(first: Scalar, second: Scalar) -> Scalar {
    first.add_spec(second)
}

/// Whether the two parties' parts make up an authenticated scalar: the
/// parties agree on the public modifier, and their shares of the MAC add up to
/// the MAC key times the sum of the value and the modifier
pub open spec fn authentic(key0: Scalar, key1: Scalar, part0: ScalarPart, part1: ScalarPart)
    -> bool {
    &&& part0.public_modifier == part1.public_modifier
    &&& part0.mac.add_spec(part1.mac) == key0.add_spec(key1).mul_spec(
        opened(part0.share, part1.share).add_spec(part0.public_modifier),
    )
}

/// What being authentic says of the representatives: the MAC shares add up
/// to the key times the sum of the shares and the modifier, modulo the order of
/// the field
pub proof fn lemma_authentic_congruence(
    key0: Scalar,
    key1: Scalar,
    part0: ScalarPart,
    part1: ScalarPart,
)
    ensures
        (part0.mac.add_spec(part1.mac) == key0.add_spec(key1).mul_spec(
            opened(part0.share, part1.share).add_spec(part0.public_modifier),
        )) <==> congruent(
            iv(part0.mac) + iv(part1.mac),
            (iv(key0) + iv(key1)) * (iv(part0.share) + iv(part1.share) + iv(part0.public_modifier)),
        ),
{
    lemma_modulus_bounds();
    let n = scalar_modulus() as int;
    let key = key0.add_spec(key1);
    let value = opened(part0.share, part1.share);
    let shifted = value.add_spec(part0.public_modifier);
    lemma_operation_views(key0, key1);
    lemma_operation_views(part0.share, part1.share);
    lemma_operation_views(value, part0.public_modifier);
    lemma_operation_views(key, shifted);
    lemma_operation_views(part0.mac, part1.mac);
    lemma_congruent_add(
        iv(value),
        iv(part0.share) + iv(part1.share),
        iv(part0.public_modifier),
        iv(part0.public_modifier),
    );
    lemma_congruent_mul(
        iv(key),
        iv(key0) + iv(key1),
        iv(shifted),
        iv(part0.share) + iv(part1.share) + iv(part0.public_modifier),
    );
    let left = part0.mac.add_spec(part1.mac);
    let right = key.mul_spec(shifted);
    // Both sides are reduced, so they are equal exactly if they are congruent
    lemma_mod_bound(iv(part0.mac) + iv(part1.mac), n);
    lemma_mod_bound(iv(key) * iv(shifted), n);
    lemma_small_mod(left@, scalar_modulus());
    lemma_small_mod(right@, scalar_modulus());
    if left@ == right@ {
        assert(left == right);
    }
}

/// Adding shares adds the values: the shares of two sums add up to the sum
/// of what the shares add up to
pub proof fn lemma_sum_opens(a0: Scalar, a1: Scalar, b0: Scalar, b1: Scalar)
    ensures
        opened(a0.add_spec(b0), a1.add_spec(b1)) == opened(a0, a1).add_spec(opened(b0, b1)),
{
    lemma_operation_views(a0, b0);
    lemma_operation_views(a1, b1);
    lemma_operation_views(a0, a1);
    lemma_operation_views(b0, b1);
    lemma_congruent_add(
        iv(a0.add_spec(b0)),
        iv(a0) + iv(b0),
        iv(a1.add_spec(b1)),
        iv(a1) + iv(b1),
    );
    lemma_congruent_add(
        iv(opened(a0, a1)),
        iv(a0) + iv(a1),
        iv(opened(b0, b1)),
        iv(b0) + iv(b1),
    );
}

/// The sum of two authenticated scalars is authenticated, and opens to the
/// sum of their values
pub proof fn lemma_sum_authentic(
    key0: Scalar,
    key1: Scalar,
    a0: ScalarPart,
    a1: ScalarPart,
    b0: ScalarPart,
    b1: ScalarPart,
)
    requires
        authentic(key0, key1, a0, a1),
        authentic(key0, key1, b0, b1),
    ensures
        authentic(key0, key1, a0.plus(b0), a1.plus(b1)),
        opened(a0.plus(b0).share, a1.plus(b1).share) == opened(a0.share, a1.share).add_spec(
            opened(b0.share, b1.share),
        ),
{
    let k = iv(key0) + iv(key1);
    lemma_sum_opens(a0.share, a1.share, b0.share, b1.share);
    lemma_authentic_congruence(key0, key1, a0, a1);
    lemma_authentic_congruence(key0, key1, b0, b1);
    lemma_authentic_congruence(key0, key1, a0.plus(b0), a1.plus(b1));
    lemma_operation_views(a0.share, b0.share);
    lemma_operation_views(a1.share, b1.share);
    lemma_operation_views(a0.mac, b0.mac);
    lemma_operation_views(a1.mac, b1.mac);
    lemma_operation_views(a0.public_modifier, b0.public_modifier);
    // The MACs
    lemma_congruent_add(
        iv(a0.plus(b0).mac),
        iv(a0.mac) + iv(b0.mac),
        iv(a1.plus(b1).mac),
        iv(a1.mac) + iv(b1.mac),
    );
    lemma_congruent_add(
        iv(a0.mac) + iv(a1.mac),
        k * (iv(a0.share) + iv(a1.share) + iv(a0.public_modifier)),
        iv(b0.mac) + iv(b1.mac),
        k * (iv(b0.share) + iv(b1.share) + iv(b0.public_modifier)),
    );
    // The values and the modifiers
    lemma_congruent_add(
        iv(a0.plus(b0).share),
        iv(a0.share) + iv(b0.share),
        iv(a1.plus(b1).share),
        iv(a1.share) + iv(b1.share),
    );
    lemma_congruent_add(
        iv(a0.plus(b0).share) + iv(a1.plus(b1).share),
        iv(a0.share) + iv(b0.share) + iv(a1.share) + iv(b1.share),
        iv(a0.plus(b0).public_modifier),
        iv(a0.public_modifier) + iv(b0.public_modifier),
    );
    lemma_congruent_mul(
        k,
        k,
        iv(a0.plus(b0).share) + iv(a1.plus(b1).share) + iv(a0.plus(b0).public_modifier),
        iv(a0.share) + iv(b0.share) + iv(a1.share) + iv(b1.share) + iv(a0.public_modifier)
            + iv(b0.public_modifier),
    );
    assert(k * (iv(a0.share) + iv(a1.share) + iv(a0.public_modifier)) + k * (iv(b0.share) + iv(b1.share)
        + iv(b0.public_modifier)) == k * (iv(a0.share) + iv(b0.share) + iv(a1.share) + iv(b1.share)
        + iv(a0.public_modifier) + iv(b0.public_modifier))) by (nonlinear_arith);
}

/// The shares zero and one, each with the party's share of the MAC key for
/// its share of the MAC, make up the authenticated scalar one
pub proof fn lemma_one_authentic(key0: Scalar, key1: Scalar)
    ensures
        authentic(
            key0,
            key1,
            ScalarPart { share: Scalar::of_nat(0), mac: key0, public_modifier: Scalar::of_nat(0) },
            ScalarPart { share: Scalar::of_nat(1), mac: key1, public_modifier: Scalar::of_nat(0) },
        ),
        opened(Scalar::of_nat(0), Scalar::of_nat(1)) == Scalar::of_nat(1),
{
    lemma_modulus_bounds();
    let zero = Scalar::of_nat(0);
    let one = Scalar::of_nat(1);
    let part0 = ScalarPart { share: zero, mac: key0, public_modifier: zero };
    let part1 = ScalarPart { share: one, mac: key1, public_modifier: zero };
    Scalar::lemma_view_of_nat(0);
    Scalar::lemma_view_of_nat(1);
    lemma_small_mod(1, scalar_modulus());
    lemma_authentic_congruence(key0, key1, part0, part1);
    assert((iv(key0) + iv(key1)) * (iv(zero) + iv(one) + iv(zero)) == iv(key0) + iv(key1))
        by (nonlinear_arith)
        requires
            iv(zero) == 0,
            iv(one) == 1,
    ;
}

/// The difference of two authenticated scalars is authenticated, and opens
/// to the difference of their values
pub proof fn lemma_difference_authentic(
    key0: Scalar,
    key1: Scalar,
    a0: ScalarPart,
    a1: ScalarPart,
    b0: ScalarPart,
    b1: ScalarPart,
)
    requires
        authentic(key0, key1, a0, a1),
        authentic(key0, key1, b0, b1),
    ensures
        authentic(key0, key1, a0.minus(b0), a1.minus(b1)),
        opened(a0.minus(b0).share, a1.minus(b1).share) == opened(a0.share, a1.share).sub_spec(
            opened(b0.share, b1.share),
        ),
{
    let k = iv(key0) + iv(key1);
    let x = iv(a0.share) + iv(a1.share);
    let y = iv(b0.share) + iv(b1.share);
    let m = iv(a0.public_modifier);
    let n = iv(b0.public_modifier);
    lemma_authentic_congruence(key0, key1, a0, a1);
    lemma_authentic_congruence(key0, key1, b0, b1);
    lemma_authentic_congruence(key0, key1, a0.minus(b0), a1.minus(b1));
    lemma_operation_views(a0.share, b0.share);
    lemma_operation_views(a1.share, b1.share);
    lemma_operation_views(a0.mac, b0.mac);
    lemma_operation_views(a1.mac, b1.mac);
    lemma_operation_views(a0.public_modifier, b0.public_modifier);
    lemma_operation_views(a0.share, a1.share);
    lemma_operation_views(b0.share, b1.share);
    lemma_operation_views(opened(a0.share, a1.share), opened(b0.share, b1.share));
    lemma_operation_views(a0.minus(b0).share, a1.minus(b1).share);
    // The values
    lemma_congruent_add(
        iv(a0.minus(b0).share),
        iv(a0.share) - iv(b0.share),
        iv(a1.minus(b1).share),
        iv(a1.share) - iv(b1.share),
    );
    lemma_congruent_sub(iv(opened(a0.share, a1.share)), x, iv(opened(b0.share, b1.share)), y);
    // The MACs
    lemma_congruent_add(
        iv(a0.minus(b0).mac),
        iv(a0.mac) - iv(b0.mac),
        iv(a1.minus(b1).mac),
        iv(a1.mac) - iv(b1.mac),
    );
    lemma_congruent_sub(iv(a0.mac) + iv(a1.mac), k * (x + m), iv(b0.mac) + iv(b1.mac), k * (y + n));
    lemma_congruent_add(
        iv(a0.minus(b0).share) + iv(a1.minus(b1).share),
        x - y,
        iv(a0.minus(b0).public_modifier),
        m - n,
    );
    lemma_congruent_mul(
        k,
        k,
        iv(a0.minus(b0).share) + iv(a1.minus(b1).share) + iv(a0.minus(b0).public_modifier),
        x - y + (m - n),
    );
    assert(k * (x + m) - k * (y + n) == k * (x - y + (m - n))) by (nonlinear_arith);
}

/// An authenticated scalar that is masked by another is authenticated, and
/// opens to the difference of their values, where the MAC key times the
/// public modifier of the second is zero; the modifier is that of the first
/// alone
pub proof fn lemma_masked_authentic(
    key0: Scalar,
    key1: Scalar,
    a0: ScalarPart,
    a1: ScalarPart,
    b0: ScalarPart,
    b1: ScalarPart,
)
    requires
        authentic(key0, key1, a0, a1),
        authentic(key0, key1, b0, b1),
        congruent((iv(key0) + iv(key1)) * iv(b0.public_modifier), 0),
    ensures
        authentic(key0, key1, a0.masked_by(b0), a1.masked_by(b1)),
        opened(a0.masked_by(b0).share, a1.masked_by(b1).share) == opened(a0.share, a1.share).sub_spec(
            opened(b0.share, b1.share),
        ),
{
    let k = iv(key0) + iv(key1);
    lemma_authentic_congruence(key0, key1, a0, a1);
    lemma_authentic_congruence(key0, key1, b0, b1);
    lemma_authentic_congruence(key0, key1, a0.masked_by(b0), a1.masked_by(b1));
    lemma_operation_views(a0.share, b0.share);
    lemma_operation_views(a1.share, b1.share);
    lemma_operation_views(a0.mac, b0.mac);
    lemma_operation_views(a1.mac, b1.mac);
    lemma_operation_views(a0.share, a1.share);
    lemma_operation_views(b0.share, b1.share);
    lemma_operation_views(opened(a0.share, a1.share), opened(b0.share, b1.share));
    lemma_operation_views(a0.masked_by(b0).share, a1.masked_by(b1).share);
    // The values
    lemma_congruent_add(
        iv(a0.masked_by(b0).share),
        iv(a0.share) - iv(b0.share),
        iv(a1.masked_by(b1).share),
        iv(a1.share) - iv(b1.share),
    );
    lemma_congruent_sub(
        iv(opened(a0.share, a1.share)),
        iv(a0.share) + iv(a1.share),
        iv(opened(b0.share, b1.share)),
        iv(b0.share) + iv(b1.share),
    );
    // The MACs
    lemma_congruent_add(
        iv(a0.masked_by(b0).mac),
        iv(a0.mac) - iv(b0.mac),
        iv(a1.masked_by(b1).mac),
        iv(a1.mac) - iv(b1.mac),
    );
    lemma_congruent_sub(
        iv(a0.mac) + iv(a1.mac),
        k * (iv(a0.share) + iv(a1.share) + iv(a0.public_modifier)),
        iv(b0.mac) + iv(b1.mac),
        k * (iv(b0.share) + iv(b1.share) + iv(b0.public_modifier)),
    );
    lemma_congruent_add(
        iv(a0.masked_by(b0).share) + iv(a1.masked_by(b1).share),
        iv(a0.share) - iv(b0.share) + iv(a1.share) - iv(b1.share),
        iv(a0.public_modifier),
        iv(a0.public_modifier),
    );
    lemma_congruent_mul(
        k,
        k,
        iv(a0.masked_by(b0).share) + iv(a1.masked_by(b1).share) + iv(a0.public_modifier),
        iv(a0.share) - iv(b0.share) + iv(a1.share) - iv(b1.share) + iv(a0.public_modifier),
    );
    let target = k * (iv(a0.share) - iv(b0.share) + iv(a1.share) - iv(b1.share) + iv(
        a0.public_modifier,
    ));
    assert(k * (iv(a0.share) + iv(a1.share) + iv(a0.public_modifier)) - k * (iv(b0.share) + iv(b1.share)
        + iv(b0.public_modifier)) == target - k * iv(b0.public_modifier)) by (nonlinear_arith)
        requires
            target == k * (iv(a0.share) - iv(b0.share) + iv(a1.share) - iv(b1.share) + iv(a0.public_modifier)),
    ;
    lemma_congruent_sub(target, target, k * iv(b0.public_modifier), 0);
}

/// The negation of an authenticated scalar is authenticated, and opens to the
/// negation of its value, where the MAC key times twice the public modifier is
/// zero; the modifier is kept as it is
pub proof fn lemma_negation_authentic(key0: Scalar, key1: Scalar, a0: ScalarPart, a1: ScalarPart)
    requires
        authentic(key0, key1, a0, a1),
        congruent((iv(key0) + iv(key1)) * (2 * iv(a0.public_modifier)), 0),
    ensures
        authentic(key0, key1, a0.negated(), a1.negated()),
        opened(a0.negated().share, a1.negated().share) == opened(a0.share, a1.share).neg_spec(),
{
    let k = iv(key0) + iv(key1);
    let m = iv(a0.public_modifier);
    let x = iv(a0.share) + iv(a1.share);
    lemma_authentic_congruence(key0, key1, a0, a1);
    lemma_authentic_congruence(key0, key1, a0.negated(), a1.negated());
    lemma_operation_views(a0.share, a1.share);
    lemma_operation_views(a1.share, a0.share);
    lemma_operation_views(a0.mac, a1.mac);
    lemma_operation_views(a1.mac, a0.mac);
    lemma_operation_views(a0.negated().share, a1.negated().share);
    lemma_operation_views(opened(a0.share, a1.share), a1.share);
    // The values
    lemma_congruent_add(
        iv(a0.negated().share),
        -(iv(a0.share)),
        iv(a1.negated().share),
        -(iv(a1.share)),
    );
    lemma_congruent_sub(0, 0, iv(opened(a0.share, a1.share)), x);
    // The MACs
    lemma_congruent_add(
        iv(a0.negated().mac),
        -(iv(a0.mac)),
        iv(a1.negated().mac),
        -(iv(a1.mac)),
    );
    lemma_congruent_sub(0, 0, iv(a0.mac) + iv(a1.mac), k * (x + m));
    lemma_congruent_add(iv(a0.negated().share) + iv(a1.negated().share), -x, m, m);
    lemma_congruent_mul(k, k, iv(a0.negated().share) + iv(a1.negated().share) + m, -x + m);
    lemma_congruent_add(0 - k * (x + m), 0 - k * (x + m), k * (2 * m), 0);
    assert(0 - k * (x + m) + k * (2 * m) == k * (-x + m)) by (nonlinear_arith);
}

/// The sum of an authenticated scalar and a public one is authenticated, and
/// opens to the sum of the value and the public scalar
pub proof fn lemma_public_sum_authentic(
    key0: Scalar,
    key1: Scalar,
    a0: ScalarPart,
    a1: ScalarPart,
    public: Scalar,
)
    requires
        authentic(key0, key1, a0, a1),
    ensures
        authentic(key0, key1, a0.plus_public(0, public), a1.plus_public(1, public)),
        opened(a0.plus_public(0, public).share, a1.plus_public(1, public).share) == opened(
            a0.share,
            a1.share,
        ).add_spec(public),
{
    let k = iv(key0) + iv(key1);
    let m = iv(a0.public_modifier);
    let x = iv(a0.share) + iv(a1.share);
    let c = iv(public);
    let b0 = a0.plus_public(0, public);
    let b1 = a1.plus_public(1, public);
    lemma_authentic_congruence(key0, key1, a0, a1);
    lemma_authentic_congruence(key0, key1, b0, b1);
    lemma_operation_views(a0.share, public);
    lemma_operation_views(a0.share, a1.share);
    lemma_operation_views(a0.public_modifier, public);
    lemma_operation_views(b0.share, b1.share);
    lemma_operation_views(opened(a0.share, a1.share), public);
    // The values
    lemma_congruent_add(iv(b0.share), iv(a0.share) + c, iv(b1.share), iv(a1.share));
    lemma_congruent_add(iv(opened(a0.share, a1.share)), x, c, c);
    // The MACs are the same, and the modifier makes up for the public scalar
    lemma_congruent_add(iv(b0.share) + iv(b1.share), x + c, iv(b0.public_modifier), m - c);
    lemma_congruent_mul(k, k, iv(b0.share) + iv(b1.share) + iv(b0.public_modifier), x + c + (m - c));
}

/// The difference of an authenticated scalar and a public one is
/// authenticated, and opens to the difference of the value and the public
/// scalar
pub proof fn lemma_public_difference_authentic(
    key0: Scalar,
    key1: Scalar,
    a0: ScalarPart,
    a1: ScalarPart,
    public: Scalar,
)
    requires
        authentic(key0, key1, a0, a1),
    ensures
        authentic(key0, key1, a0.minus_public(0, public), a1.minus_public(1, public)),
        opened(a0.minus_public(0, public).share, a1.minus_public(1, public).share) == opened(
            a0.share,
            a1.share,
        ).sub_spec(public),
{
    let k = iv(key0) + iv(key1);
    let m = iv(a0.public_modifier);
    let x = iv(a0.share) + iv(a1.share);
    let c = iv(public);
    let b0 = a0.minus_public(0, public);
    let b1 = a1.minus_public(1, public);
    lemma_authentic_congruence(key0, key1, a0, a1);
    lemma_authentic_congruence(key0, key1, b0, b1);
    lemma_operation_views(a0.share, public);
    lemma_operation_views(a0.share, a1.share);
    lemma_operation_views(a0.public_modifier, public);
    lemma_operation_views(b0.share, b1.share);
    lemma_operation_views(opened(a0.share, a1.share), public);
    lemma_congruent_add(iv(b0.share), iv(a0.share) - c, iv(b1.share), iv(a1.share));
    lemma_congruent_sub(iv(opened(a0.share, a1.share)), x, c, c);
    lemma_congruent_add(iv(b0.share) + iv(b1.share), x - c, iv(b0.public_modifier), m + c);
    lemma_congruent_mul(k, k, iv(b0.share) + iv(b1.share) + iv(b0.public_modifier), x - c + (m + c));
}

/// The product of an authenticated scalar and a public one is authenticated,
/// and opens to the product of the value and the public scalar
pub proof fn lemma_product_authentic(
    key0: Scalar,
    key1: Scalar,
    a0: ScalarPart,
    a1: ScalarPart,
    public: Scalar,
)
    requires
        authentic(key0, key1, a0, a1),
    ensures
        authentic(key0, key1, a0.times(public), a1.times(public)),
        opened(a0.times(public).share, a1.times(public).share) == public.mul_spec(
            opened(a0.share, a1.share),
        ),
{
    let k = iv(key0) + iv(key1);
    let m = iv(a0.public_modifier);
    let x = iv(a0.share) + iv(a1.share);
    let s = iv(public);
    let b0 = a0.times(public);
    let b1 = a1.times(public);
    lemma_authentic_congruence(key0, key1, a0, a1);
    lemma_authentic_congruence(key0, key1, b0, b1);
    lemma_operation_views(public, a0.share);
    lemma_operation_views(public, a1.share);
    lemma_operation_views(public, a0.mac);
    lemma_operation_views(public, a1.mac);
    lemma_operation_views(public, a0.public_modifier);
    lemma_operation_views(a0.share, a1.share);
    lemma_operation_views(b0.share, b1.share);
    lemma_operation_views(public, opened(a0.share, a1.share));
    // The values
    lemma_congruent_add(iv(b0.share), s * iv(a0.share), iv(b1.share), s * iv(a1.share));
    lemma_congruent_mul(s, s, iv(opened(a0.share, a1.share)), x);
    assert(s * iv(a0.share) + s * iv(a1.share) == s * x) by (nonlinear_arith)
        requires
            x == iv(a0.share) + iv(a1.share),
    ;
    // The MACs
    lemma_congruent_add(iv(b0.mac), s * iv(a0.mac), iv(b1.mac), s * iv(a1.mac));
    lemma_congruent_mul(s, s, iv(a0.mac) + iv(a1.mac), k * (x + m));
    assert(s * iv(a0.mac) + s * iv(a1.mac) == s * (iv(a0.mac) + iv(a1.mac))) by (nonlinear_arith);
    lemma_congruent_add(iv(b0.share) + iv(b1.share), s * x, iv(b0.public_modifier), s * m);
    lemma_congruent_mul(k, k, iv(b0.share) + iv(b1.share) + iv(b0.public_modifier), s * x + s * m);
    assert(s * (k * (x + m)) == k * (s * x + s * m)) by (nonlinear_arith);
}

/// Sharing and opening give the value back: of a canonical scalar, the sender's
/// share, the value less the blinder, and the peer's share, the blinder, add up
/// to the value
pub proof fn lemma_sharing_opens(value: Scalar, blinder: Scalar)
    requires
        value@ < scalar_modulus(),
    ensures
        opened(value.sub_spec(blinder), blinder) == value,
{
    lemma_modulus_bounds();
    lemma_operation_views(value, blinder);
    lemma_operation_views(value.sub_spec(blinder), blinder);
    lemma_congruent_add(
        iv(value.sub_spec(blinder)),
        iv(value) - iv(blinder),
        iv(blinder),
        iv(blinder),
    );
    lemma_small_mod(value@, scalar_modulus());
    Scalar::lemma_of_nat_view(value);
}

/// The shares of the MAC check of an authenticated scalar cancel: over the two
/// parties, `key * (value + modifier) - mac` adds up to zero for the opened
/// value
pub proof fn lemma_mac_check_cancels(key0: Scalar, key1: Scalar, a0: ScalarPart, a1: ScalarPart)
    requires
        authentic(key0, key1, a0, a1),
    ensures
        a0.mac_check(key0, opened(a0.share, a1.share)).add_spec(
            a1.mac_check(key1, opened(a0.share, a1.share)),
        ) == Scalar::of_nat(0),
        Value::mac_check(
            Value::Scalar(key0),
            Value::Scalar(opened(a0.share, a1.share)),
            Value::Scalar(a0.public_modifier),
            Value::Scalar(a0.mac),
        ) == Some(Value::Scalar(a0.mac_check(key0, opened(a0.share, a1.share)))),
{
    lemma_modulus_bounds();
    let value = opened(a0.share, a1.share);
    let shifted = value.add_spec(a0.public_modifier);
    let x = iv(a0.share) + iv(a1.share);
    let m = iv(a0.public_modifier);
    let c0 = a0.mac_check(key0, value);
    let c1 = a1.mac_check(key1, value);
    lemma_authentic_congruence(key0, key1, a0, a1);
    lemma_operation_views(a0.share, a1.share);
    lemma_operation_views(value, a0.public_modifier);
    lemma_operation_views(key0, shifted);
    lemma_operation_views(key1, shifted);
    lemma_operation_views(key0.mul_spec(shifted), a0.mac);
    lemma_operation_views(key1.mul_spec(shifted), a1.mac);
    lemma_operation_views(c0, c1);
    lemma_congruent_add(iv(value), x, m, m);
    lemma_congruent_mul(iv(key0), iv(key0), iv(shifted), x + m);
    lemma_congruent_mul(iv(key1), iv(key1), iv(shifted), x + m);
    lemma_congruent_sub(
        iv(key0.mul_spec(shifted)),
        iv(key0) * (x + m),
        iv(a0.mac),
        iv(a0.mac),
    );
    lemma_congruent_sub(
        iv(key1.mul_spec(shifted)),
        iv(key1) * (x + m),
        iv(a1.mac),
        iv(a1.mac),
    );
    lemma_congruent_add(
        iv(c0),
        iv(key0) * (x + m) - iv(a0.mac),
        iv(c1),
        iv(key1) * (x + m) - iv(a1.mac),
    );
    assert(iv(key0) * (x + m) - iv(a0.mac) + (iv(key1) * (x + m) - iv(a1.mac)) == (iv(key0) + iv(key1)) * (x + m)
        - (iv(a0.mac) + iv(a1.mac))) by (nonlinear_arith);
    lemma_congruent_sub(
        (iv(key0) + iv(key1)) * (x + m),
        (iv(key0) + iv(key1)) * (x + m),
        iv(a0.mac) + iv(a1.mac),
        (iv(key0) + iv(key1)) * (x + m),
    );
    lemma_small_mod(0, scalar_modulus());
}

/// The shares of the MAC check cancel exactly if the parts make up an
/// authenticated scalar, provided that the parties agree on the public
/// modifier: a value whose MAC does not fit it is found out
pub proof fn lemma_mac_check_detects(key0: Scalar, key1: Scalar, a0: ScalarPart, a1: ScalarPart)
    requires
        a0.public_modifier == a1.public_modifier,
    ensures
        (a0.mac_check(key0, opened(a0.share, a1.share)).add_spec(
            a1.mac_check(key1, opened(a0.share, a1.share)),
        ) == Scalar::of_nat(0)) <==> authentic(key0, key1, a0, a1),
{
    lemma_modulus_bounds();
    let n = scalar_modulus() as int;
    let value = opened(a0.share, a1.share);
    let shifted = value.add_spec(a0.public_modifier);
    let x = iv(a0.share) + iv(a1.share);
    let m = iv(a0.public_modifier);
    let c0 = a0.mac_check(key0, value);
    let c1 = a1.mac_check(key1, value);
    let total = c0.add_spec(c1);
    let expected = (iv(key0) + iv(key1)) * (x + m);
    let macs = iv(a0.mac) + iv(a1.mac);
    lemma_authentic_congruence(key0, key1, a0, a1);
    lemma_operation_views(a0.share, a1.share);
    lemma_operation_views(value, a0.public_modifier);
    lemma_operation_views(key0, shifted);
    lemma_operation_views(key1, shifted);
    lemma_operation_views(key0.mul_spec(shifted), a0.mac);
    lemma_operation_views(key1.mul_spec(shifted), a1.mac);
    lemma_operation_views(c0, c1);
    lemma_congruent_add(iv(value), x, m, m);
    lemma_congruent_mul(iv(key0), iv(key0), iv(shifted), x + m);
    lemma_congruent_mul(iv(key1), iv(key1), iv(shifted), x + m);
    lemma_congruent_sub(
        iv(key0.mul_spec(shifted)),
        iv(key0) * (x + m),
        iv(a0.mac),
        iv(a0.mac),
    );
    lemma_congruent_sub(
        iv(key1.mul_spec(shifted)),
        iv(key1) * (x + m),
        iv(a1.mac),
        iv(a1.mac),
    );
    lemma_congruent_add(
        iv(c0),
        iv(key0) * (x + m) - iv(a0.mac),
        iv(c1),
        iv(key1) * (x + m) - iv(a1.mac),
    );
    assert(iv(key0) * (x + m) - iv(a0.mac) + (iv(key1) * (x + m) - iv(a1.mac)) == expected - macs)
        by (nonlinear_arith)
        requires
            expected == (iv(key0) + iv(key1)) * (x + m),
            macs == iv(a0.mac) + iv(a1.mac),
    ;
    // The sum of the shares of the check stands for what is expected of the
    // MAC less the MAC
    assert(congruent(iv(total), expected - macs));
    lemma_small_mod(0, scalar_modulus());
    lemma_mod_bound(iv(c0) + iv(c1), n);
    lemma_small_mod(total@, scalar_modulus());
    Scalar::lemma_view_of_nat(0);
    Scalar::lemma_of_nat_view(total);
    assert(total == Scalar::of_nat(0) <==> congruent(expected - macs, 0));
    if congruent(expected - macs, 0) {
        lemma_congruent_add(expected - macs, 0, macs, macs);
    }
    if congruent(macs, expected) {
        lemma_congruent_sub(expected, expected, macs, expected);
    }
}

/// The Beaver identity: with a triple `(a, b, c)` of shared values with
/// `c = a * b`, and with the opened values `d = x - a` and `e = y - b`, the
/// shares `d * b + e * a + c`, to which the first party adds `d * e`, add up
/// to `x * y`
pub proof fn lemma_beaver_product(
    x0: Scalar,
    x1: Scalar,
    y0: Scalar,
    y1: Scalar,
    a0: Scalar,
    a1: Scalar,
    b0: Scalar,
    b1: Scalar,
    c0: Scalar,
    c1: Scalar,
)
    requires
        opened(c0, c1) == opened(a0, a1).mul_spec(opened(b0, b1)),
    ensures
        ({
            let d = opened(x0.sub_spec(a0), x1.sub_spec(a1));
            let e = opened(y0.sub_spec(b0), y1.sub_spec(b1));
            let z0 = d.mul_spec(b0).add_spec(e.mul_spec(a0)).add_spec(c0).add_spec(d.mul_spec(e));
            let z1 = d.mul_spec(b1).add_spec(e.mul_spec(a1)).add_spec(c1);
            opened(z0, z1) == opened(x0, x1).mul_spec(opened(y0, y1))
        }),
{
    lemma_modulus_bounds();
    let d = opened(x0.sub_spec(a0), x1.sub_spec(a1));
    let e = opened(y0.sub_spec(b0), y1.sub_spec(b1));
    let p0 = d.mul_spec(b0).add_spec(e.mul_spec(a0)).add_spec(c0);
    let z0 = p0.add_spec(d.mul_spec(e));
    let z1 = d.mul_spec(b1).add_spec(e.mul_spec(a1)).add_spec(c1);
    let x = iv(x0) + iv(x1);
    let y = iv(y0) + iv(y1);
    let a = iv(a0) + iv(a1);
    let b = iv(b0) + iv(b1);
    let c = iv(c0) + iv(c1);
    let dv = x - a;
    let ev = y - b;
    // The opened masks
    lemma_operation_views(x0, a0);
    lemma_operation_views(x1, a1);
    lemma_operation_views(y0, b0);
    lemma_operation_views(y1, b1);
    lemma_operation_views(x0.sub_spec(a0), x1.sub_spec(a1));
    lemma_operation_views(y0.sub_spec(b0), y1.sub_spec(b1));
    lemma_congruent_add(iv(x0.sub_spec(a0)), iv(x0) - iv(a0), iv(x1.sub_spec(a1)), iv(x1) - iv(a1));
    lemma_congruent_add(iv(y0.sub_spec(b0)), iv(y0) - iv(b0), iv(y1.sub_spec(b1)), iv(y1) - iv(b1));
    assert(congruent(iv(d), dv));
    assert(congruent(iv(e), ev));
    // The triple
    lemma_operation_views(c0, c1);
    lemma_operation_views(a0, a1);
    lemma_operation_views(b0, b1);
    lemma_operation_views(opened(a0, a1), opened(b0, b1));
    lemma_congruent_mul(iv(opened(a0, a1)), a, iv(opened(b0, b1)), b);
    assert(congruent(c, a * b));
    // The second party's share
    lemma_operation_views(d, b1);
    lemma_operation_views(e, a1);
    lemma_operation_views(d.mul_spec(b1), e.mul_spec(a1));
    lemma_operation_views(d.mul_spec(b1).add_spec(e.mul_spec(a1)), c1);
    lemma_congruent_mul(iv(d), dv, iv(b1), iv(b1));
    lemma_congruent_mul(iv(e), ev, iv(a1), iv(a1));
    lemma_congruent_add(iv(d.mul_spec(b1)), dv * iv(b1), iv(e.mul_spec(a1)), ev * iv(a1));
    lemma_congruent_add(
        iv(d.mul_spec(b1).add_spec(e.mul_spec(a1))),
        dv * iv(b1) + ev * iv(a1),
        iv(c1),
        iv(c1),
    );
    // The first party's share
    lemma_operation_views(d, b0);
    lemma_operation_views(e, a0);
    lemma_operation_views(d, e);
    lemma_operation_views(d.mul_spec(b0), e.mul_spec(a0));
    lemma_operation_views(d.mul_spec(b0).add_spec(e.mul_spec(a0)), c0);
    lemma_operation_views(p0, d.mul_spec(e));
    lemma_congruent_mul(iv(d), dv, iv(b0), iv(b0));
    lemma_congruent_mul(iv(e), ev, iv(a0), iv(a0));
    lemma_congruent_mul(iv(d), dv, iv(e), ev);
    lemma_congruent_add(iv(d.mul_spec(b0)), dv * iv(b0), iv(e.mul_spec(a0)), ev * iv(a0));
    lemma_congruent_add(
        iv(d.mul_spec(b0).add_spec(e.mul_spec(a0))),
        dv * iv(b0) + ev * iv(a0),
        iv(c0),
        iv(c0),
    );
    lemma_congruent_add(iv(p0), dv * iv(b0) + ev * iv(a0) + iv(c0), iv(d.mul_spec(e)), dv * ev);
    // The sum of the two
    lemma_operation_views(z0, z1);
    lemma_congruent_add(
        iv(z0),
        dv * iv(b0) + ev * iv(a0) + iv(c0) + dv * ev,
        iv(z1),
        dv * iv(b1) + ev * iv(a1) + iv(c1),
    );
    let total = dv * iv(b0) + ev * iv(a0) + iv(c0) + dv * ev + (dv * iv(b1) + ev * iv(a1) + iv(c1));
    assert(total == dv * b + ev * a + dv * ev + c) by (nonlinear_arith)
        requires
            total == dv * iv(b0) + ev * iv(a0) + iv(c0) + dv * ev + (dv * iv(b1) + ev * iv(a1) + iv(c1)),
            b == iv(b0) + iv(b1),
            a == iv(a0) + iv(a1),
            c == iv(c0) + iv(c1),
    ;
    lemma_congruent_add(dv * b + ev * a + dv * ev, dv * b + ev * a + dv * ev, c, a * b);
    assert(dv * b + ev * a + dv * ev + a * b == x * y) by (nonlinear_arith)
        requires
            dv == x - a,
            ev == y - b,
    ;
    // The product in the clear
    lemma_operation_views(x0, x1);
    lemma_operation_views(y0, y1);
    lemma_operation_views(opened(x0, x1), opened(y0, y1));
    lemma_congruent_mul(iv(opened(x0, x1)), x, iv(opened(y0, y1)), y);
}

/// The Beaver identity on values: with `d = x - a` and `e = y - b`,
/// `d * b + d * e + e * a + a * b` is `x * y`
pub proof fn lemma_beaver_values(x: Scalar, y: Scalar, a: Scalar, b: Scalar)
    ensures
        ({
            let d = x.sub_spec(a);
            let e = y.sub_spec(b);
            d.mul_spec(b).add_spec(d.mul_spec(e)).add_spec(e.mul_spec(a)).add_spec(a.mul_spec(b))
                == x.mul_spec(y)
        }),
{
    let d = x.sub_spec(a);
    let e = y.sub_spec(b);
    let dv = iv(x) - iv(a);
    let ev = iv(y) - iv(b);
    lemma_operation_views(x, a);
    lemma_operation_views(y, b);
    lemma_operation_views(d, b);
    lemma_operation_views(d, e);
    lemma_operation_views(e, a);
    lemma_operation_views(a, b);
    lemma_operation_views(x, y);
    lemma_operation_views(d.mul_spec(b), d.mul_spec(e));
    lemma_operation_views(d.mul_spec(b).add_spec(d.mul_spec(e)), e.mul_spec(a));
    lemma_operation_views(
        d.mul_spec(b).add_spec(d.mul_spec(e)).add_spec(e.mul_spec(a)),
        a.mul_spec(b),
    );
    lemma_congruent_mul(iv(d), dv, iv(b), iv(b));
    lemma_congruent_mul(iv(d), dv, iv(e), ev);
    lemma_congruent_mul(iv(e), ev, iv(a), iv(a));
    lemma_congruent_add(iv(d.mul_spec(b)), dv * iv(b), iv(d.mul_spec(e)), dv * ev);
    lemma_congruent_add(
        iv(d.mul_spec(b).add_spec(d.mul_spec(e))),
        dv * iv(b) + dv * ev,
        iv(e.mul_spec(a)),
        ev * iv(a),
    );
    lemma_congruent_add(
        iv(d.mul_spec(b).add_spec(d.mul_spec(e)).add_spec(e.mul_spec(a))),
        dv * iv(b) + dv * ev + ev * iv(a),
        iv(a.mul_spec(b)),
        iv(a) * iv(b),
    );
    assert(dv * iv(b) + dv * ev + ev * iv(a) + iv(a) * iv(b) == iv(x) * iv(y))
        by (nonlinear_arith)
        requires
            dv == iv(x) - iv(a),
            ev == iv(y) - iv(b),
    ;
}

/// The product of two authenticated scalars by the Beaver trick is
/// authenticated, and opens to the product of their values: with an
/// authenticated triple `(a, b, c)` with `c = a * b` whose public modifiers the
/// MAC key takes to zero, and with the opened values `d = x - a` and
/// `e = y - b`, the parts `d * b + d * e + e * a + c`, where `d * e` is added as
/// a public scalar, make up an authenticated scalar that opens to `x * y`
pub proof fn lemma_authenticated_product(
    key0: Scalar,
    key1: Scalar,
    x0: ScalarPart,
    x1: ScalarPart,
    y0: ScalarPart,
    y1: ScalarPart,
    a0: ScalarPart,
    a1: ScalarPart,
    b0: ScalarPart,
    b1: ScalarPart,
    c0: ScalarPart,
    c1: ScalarPart,
)
    requires
        authentic(key0, key1, x0, x1),
        authentic(key0, key1, y0, y1),
        authentic(key0, key1, a0, a1),
        authentic(key0, key1, b0, b1),
        authentic(key0, key1, c0, c1),
        congruent((iv(key0) + iv(key1)) * iv(a0.public_modifier), 0),
        congruent((iv(key0) + iv(key1)) * iv(b0.public_modifier), 0),
        opened(c0.share, c1.share) == opened(a0.share, a1.share).mul_spec(
            opened(b0.share, b1.share),
        ),
    ensures
        ({
            let d = opened(x0.masked_by(a0).share, x1.masked_by(a1).share);
            let e = opened(y0.masked_by(b0).share, y1.masked_by(b1).share);
            let de = d.mul_spec(e);
            let z0 = b0.times(d).plus_public(0, de).plus(a0.times(e)).plus(c0);
            let z1 = b1.times(d).plus_public(1, de).plus(a1.times(e)).plus(c1);
            &&& authentic(key0, key1, z0, z1)
            &&& opened(z0.share, z1.share) == opened(x0.share, x1.share).mul_spec(
                opened(y0.share, y1.share),
            )
        }),
{
    let x = opened(x0.share, x1.share);
    let y = opened(y0.share, y1.share);
    let a = opened(a0.share, a1.share);
    let b = opened(b0.share, b1.share);
    let d = opened(x0.masked_by(a0).share, x1.masked_by(a1).share);
    let e = opened(y0.masked_by(b0).share, y1.masked_by(b1).share);
    let de = d.mul_spec(e);
    lemma_masked_authentic(key0, key1, x0, x1, a0, a1);
    lemma_masked_authentic(key0, key1, y0, y1, b0, b1);
    lemma_product_authentic(key0, key1, b0, b1, d);
    lemma_public_sum_authentic(key0, key1, b0.times(d), b1.times(d), de);
    lemma_product_authentic(key0, key1, a0, a1, e);
    lemma_sum_authentic(
        key0,
        key1,
        b0.times(d).plus_public(0, de),
        b1.times(d).plus_public(1, de),
        a0.times(e),
        a1.times(e),
    );
    lemma_sum_authentic(
        key0,
        key1,
        b0.times(d).plus_public(0, de).plus(a0.times(e)),
        b1.times(d).plus_public(1, de).plus(a1.times(e)),
        c0,
        c1,
    );
    lemma_beaver_values(x, y, a, b);
}

/// Under honest execution the verdict of the MAC check is one: where the two
/// parties' shares of the MAC check cancel and the peer's commitment is the
/// commitment to its share, the verdict on the peer's opening is one
pub proof fn lemma_honest_verdict(my: Scalar, peer: Scalar, blinder: Scalar)
    requires
        my.add_spec(peer) == Scalar::of_nat(0),
    ensures
        Value::mac_verdict(
            Value::Scalar(my),
            Value::Scalar(peer),
            Value::Scalar(blinder),
            Value::Scalar(
                crate::commitment::commitment_of(
                    crate::algebra::scalar::scalar_encoding(peer@),
                    blinder,
                ),
            ),
        ) == Some(Value::Scalar(Scalar::of_nat(1))),
{
}

} // verus!
