//! Arithmetic in the scalar field of the Stark curve, the integers modulo the
//! order of the curve group

use rand::RngCore;
use vstd::arithmetic::div_mod::*;
use vstd::arithmetic::mul::*;
use vstd::prelude::*;

use crate::beaver::SharedValueSource;
use crate::fabric::gate::Constant;
use crate::fabric::gate::GateFunction;
use crate::fabric::result::ResultHandle;
use crate::fabric::MpcFabric;
use crate::algebra::stark_curve::StarkPoint;

verus! {

/// The upper 128 bits of the field modulus
pub const MODULUS_HI: u128 = 0x0800000000000010ffffffffffffffff;

/// The lower 128 bits of the field modulus
pub const MODULUS_LO: u128 = 0xb781126dcae7b2321e66a241adc64d2f;

/// Two to the power 128, the weight of a scalar's upper limb
pub open spec fn limb_base() -> nat {
    0x1_0000_0000_0000_0000nat * 0x1_0000_0000_0000_0000nat
}

/// The number that an upper and a lower limb stand for
pub open spec fn limbs_value(hi: u128, lo: u128) -> nat {
    (hi as nat) * limb_base() + (lo as nat)
}

/// The order of the Stark curve group, which is the modulus of the scalar field
pub open spec fn scalar_modulus() -> nat {
    limbs_value(MODULUS_HI, MODULUS_LO)
}

/// The sum of two field elements
pub open spec fn field_add(a: nat, b: nat) -> nat {
    (a + b) % scalar_modulus()
}

/// The difference of two field elements
pub open spec fn field_sub(a: nat, b: nat) -> nat {
    ((a as int - b as int) % (scalar_modulus() as int)) as nat
}

/// The product of two field elements
pub open spec fn field_mul(a: nat, b: nat) -> nat {
    (a * b) % scalar_modulus()
}

/// The additive inverse of a field element
pub open spec fn field_neg(a: nat) -> nat {
    ((-(a as int)) % (scalar_modulus() as int)) as nat
}

/// The number that a big-endian byte string stands for
pub open spec fn be_value(bytes: Seq<u8>) -> nat
    decreases bytes.len(),
{
    if bytes.len() == 0 {
        0
    } else {
        be_value(bytes.drop_last()) * 256 + bytes.last() as nat
    }
}

/// The number of bytes in the encoding of a scalar
pub const SCALAR_BYTES: usize = 32;

/// The big-endian encoding of a number in `len` bytes: its digits in base
/// 256, the most significant first
pub open spec fn be_encoding(value: nat, len: nat) -> Seq<u8> {
    Seq::new(len, |i: int| ((value / pow256((len - 1 - i) as nat)) % 256) as u8)
}

/// The 32-byte big-endian encoding of a number
pub open spec fn scalar_encoding(value: nat) -> Seq<u8> {
    be_encoding(value, 32)
}

/// A number that fits into `len` bytes is the one that its encoding stands for
pub proof fn lemma_be_encoding_value(value: nat, len: nat)
    requires
        value < pow256(len),
    ensures
        be_value(be_encoding(value, len)) == value,
    decreases len,
{
    let encoded = be_encoding(value, len);
    if len > 0 {
        let rest = value / 256;
        assert(pow256(len) == 256 * pow256((len - 1) as nat));
        lemma_fundamental_div_mod(value as int, 256);
        assert(rest < pow256((len - 1) as nat)) by (nonlinear_arith)
            requires
                value < 256 * pow256((len - 1) as nat),
                rest == value / 256,
        ;
        lemma_be_encoding_value(rest, (len - 1) as nat);
        assert(encoded.drop_last() =~= be_encoding(rest, (len - 1) as nat)) by {
            assert forall|i: int| 0 <= i < len - 1 implies encoded[i] == be_encoding(
                rest,
                (len - 1) as nat,
            )[i] by {
                let place = pow256((len - 2 - i) as nat) as int;
                lemma_pow256_positive((len - 2 - i) as nat);
                assert(pow256((len - 1 - i) as nat) == 256 * place);
                lemma_div_denominator(value as int, 256, place);
            }
        }
        assert(pow256(0) == 1);
        assert(value as int / (pow256(0) as int) == value) by (nonlinear_arith)
            requires
                pow256(0) == 1,
        ;
        assert(encoded.last() as nat == value % 256);
    }
}

/// Each byte of a big-endian string is the digit of its value at that place
pub proof fn lemma_be_value_digit(bytes: Seq<u8>, i: int)
    requires
        0 <= i < bytes.len(),
    ensures
        bytes[i] as nat == (be_value(bytes) / pow256((bytes.len() - 1 - i) as nat)) % 256,
    decreases bytes.len(),
{
    let value = be_value(bytes) as int;
    let rest = be_value(bytes.drop_last()) as int;
    assert(value == rest * 256 + bytes.last() as int);
    if i == bytes.len() - 1 {
        assert(pow256(0) == 1);
        assert(value / (pow256(0) as int) == value) by (nonlinear_arith)
            requires
                pow256(0) == 1,
        ;
        lemma_fundamental_div_mod_converse(value, 256, rest, bytes.last() as int);
    } else {
        let place = pow256((bytes.len() - 2 - i) as nat) as int;
        lemma_pow256_positive((bytes.len() - 2 - i) as nat);
        lemma_be_value_digit(bytes.drop_last(), i);
        lemma_fundamental_div_mod_converse(value, 256, rest, bytes.last() as int);
        lemma_div_denominator(value, 256, place);
        assert(pow256((bytes.len() - 1 - i) as nat) == 256 * place);
        assert(value / (256 * place) == (value / 256) / place);
        assert(value / 256 == rest);
        assert(bytes.drop_last()[i] == bytes[i]);
        assert((bytes.drop_last().len() - 1 - i) as nat == (bytes.len() - 2 - i) as nat);
    }
}

/// 256 to the power `k`
pub open spec fn pow256(k: nat) -> nat
    decreases k,
{
    if k == 0 {
        1
    } else {
        256 * pow256((k - 1) as nat)
    }
}

/// Appending a byte string multiplies what came before by 256 for each byte
pub proof fn lemma_be_value_concat(a: Seq<u8>, b: Seq<u8>)
    ensures
        be_value(a + b) == be_value(a) * pow256(b.len()) + be_value(b),
    decreases b.len(),
{
    if b.len() == 0 {
        assert(a + b =~= a);
        assert(be_value(a) * pow256(0) == be_value(a)) by (nonlinear_arith)
            requires
                pow256(0) == 1,
        ;
    } else {
        assert((a + b).drop_last() =~= a + b.drop_last());
        assert((a + b).last() == b.last());
        lemma_be_value_concat(a, b.drop_last());
        let k = (b.len() - 1) as nat;
        assert((be_value(a) * pow256(k) + be_value(b.drop_last())) * 256 == be_value(a) * pow256(
            b.len(),
        ) + be_value(b.drop_last()) * 256) by (nonlinear_arith)
            requires
                pow256(b.len()) == 256 * pow256(k),
        ;
    }
}

/// A byte string stands for a number below 256 to the power of its length
pub proof fn lemma_be_value_bound(a: Seq<u8>)
    ensures
        be_value(a) < pow256(a.len()),
    decreases a.len(),
{
    if a.len() > 0 {
        lemma_be_value_bound(a.drop_last());
    }
}

/// Sixteen bytes fill one limb exactly
pub proof fn lemma_pow256_limb()
    ensures
        pow256(16) == limb_base(),
        pow256(8) == 0x1_0000_0000_0000_0000nat,
{
    reveal_with_fuel(pow256, 9);
    assert(pow256(8) == 0x1_0000_0000_0000_0000nat);
    lemma_pow256_add(8, 8);
}

/// Powers of 256 multiply by adding exponents
pub proof fn lemma_pow256_add(a: nat, b: nat)
    ensures
        pow256(a + b) == pow256(a) * pow256(b),
    decreases b,
{
    if b == 0 {
        assert(pow256(a) * 1 == pow256(a)) by (nonlinear_arith);
    } else {
        lemma_pow256_add(a, (b - 1) as nat);
        assert(256 * (pow256(a) * pow256((b - 1) as nat)) == pow256(a) * (256 * pow256(
            (b - 1) as nat,
        ))) by (nonlinear_arith);
    }
}

/// The numeric facts about the limbs that the arithmetic below rests on
pub proof fn lemma_modulus_bounds()
    ensures
        limb_base() == u128::MAX as nat + 1,
        scalar_modulus() > 0,
        scalar_modulus() == (MODULUS_HI as nat) * limb_base() + (MODULUS_LO as nat),
        MODULUS_HI < 0x0800000000000011_0000000000000000u128,
        scalar_modulus() > u128::MAX,
{
    assert(0x1_0000_0000_0000_0000nat * 0x1_0000_0000_0000_0000nat
        == 0xffff_ffff_ffff_ffff_ffff_ffff_ffff_ffffnat + 1) by (nonlinear_arith);
    assert((MODULUS_HI as nat) * limb_base() >= limb_base()) by (nonlinear_arith)
        requires
            MODULUS_HI >= 1,
    ;
}

/// An element of the scalar field of the Stark curve
#[derive(Clone, Copy, Debug, PartialEq, Eq, Structural)]
pub struct Scalar {
    /// The upper 128 bits of the canonical representative
    hi: u128,
    /// The lower 128 bits of the canonical representative
    lo: u128,
}

impl View for Scalar {
    type V = nat;

    /// The canonical representative, a number below the modulus
    closed spec fn view(&self) -> nat {
        limbs_value(self.hi, self.lo)
    }
}

impl Scalar {
    /// Every scalar holds its canonical representative
    #[verifier::type_invariant]
    spec fn canonical(self) -> bool {
        limbs_value(self.hi, self.lo) < scalar_modulus()
    }

    /// The scalar with the given representative
    pub closed spec fn of_nat(value: nat) -> Scalar {
        Scalar { hi: (value / limb_base()) as u128, lo: (value % limb_base()) as u128 }
    }

    /// A scalar is the scalar of its own representative
    pub proof fn lemma_of_nat_view(a: Scalar)
        ensures
            Scalar::of_nat(a@) == a,
    {
        lemma_modulus_bounds();
        let base = limb_base() as int;
        lemma_fundamental_div_mod_converse(a@ as int, base, a.hi as int, a.lo as int);
    }

    /// The scalar of a number below the modulus has that number as its representative
    pub proof fn lemma_view_of_nat(value: nat)
        requires
            value < scalar_modulus(),
        ensures
            Scalar::of_nat(value)@ == value,
    {
        lemma_modulus_bounds();
        let base = limb_base() as int;
        lemma_fundamental_div_mod(value as int, base);
        lemma_mod_bound(value as int, base);
        lemma_div_pos_is_pos(value as int, base);
        let q = value as int / base;
        if q > u128::MAX {
            assert(q * base >= base * base) by (nonlinear_arith)
                requires
                    q >= base,
                    base > 0,
            ;
            assert(base * base > scalar_modulus()) by (nonlinear_arith)
                requires
                    base == u128::MAX + 1,
                    scalar_modulus() == (MODULUS_HI as nat) * limb_base() + (MODULUS_LO as nat),
                    limb_base() == base,
                    MODULUS_HI < u128::MAX,
                    MODULUS_LO <= u128::MAX,
            ;
            assert(base * q == q * base) by (nonlinear_arith);
        }
    }

    /// The sum of two scalars
    pub open spec fn add_spec(self, other: Scalar) -> Scalar {
        Scalar::of_nat(field_add(self@, other@))
    }

    /// The difference of two scalars
    pub open spec fn sub_spec(self, other: Scalar) -> Scalar {
        Scalar::of_nat(field_sub(self@, other@))
    }

    /// The product of two scalars
    pub open spec fn mul_spec(self, other: Scalar) -> Scalar {
        Scalar::of_nat(field_mul(self@, other@))
    }

    /// The additive inverse of a scalar
    pub open spec fn neg_spec(self) -> Scalar {
        Scalar::of_nat(field_neg(self@))
    }

    /// The scalar that a machine integer stands for
    pub open spec fn from_u64_spec(value: u64) -> Scalar {
        Scalar::of_nat(value as nat)
    }

    /// The scalar that a canonical 32-byte big-endian encoding stands for, and
    /// nothing for any other byte string
    pub open spec fn decoding(bytes: Seq<u8>) -> Option<Scalar> {
        if bytes.len() == SCALAR_BYTES && be_value(bytes) < scalar_modulus() {
            Some(Scalar::of_nat(be_value(bytes)))
        } else {
            None
        }
    }

    /// The scalar that a big-endian byte string stands for, once reduced
    pub open spec fn reduced(bytes: Seq<u8>) -> Scalar {
        Scalar::of_nat(be_value(bytes) % scalar_modulus())
    }

    /// Every scalar that a program holds has a representative below the
    /// modulus
    pub fn representative_is_canonical(&self)
        ensures
            self@ < scalar_modulus(),
    {
        proof {
            use_type_invariant(self);
        }
    }

    /// The additive identity
    pub fn zero() -> (r: Scalar)
        ensures
            r@ == 0,
            r == Scalar::of_nat(0),
    {
        proof {
            lemma_modulus_bounds();
        }
        let r = Scalar { hi: 0, lo: 0 };
        proof {
            Scalar::lemma_of_nat_view(r);
        }
        r
    }

    /// The multiplicative identity
    pub fn one() -> (r: Scalar)
        ensures
            r@ == 1,
            r == Scalar::of_nat(1),
    {
        proof {
            lemma_modulus_bounds();
        }
        let r = Scalar { hi: 0, lo: 1 };
        proof {
            Scalar::lemma_of_nat_view(r);
        }
        r
    }

    /// The field element that a machine integer stands for
    pub fn from_u64(value: u64) -> (r: Scalar)
        ensures
            r@ == value as nat,
            r == Scalar::from_u64_spec(value),
    {
        proof {
            lemma_modulus_bounds();
        }
        let r = Scalar { hi: 0, lo: value as u128 };
        proof {
            Scalar::lemma_of_nat_view(r);
        }
        r
    }

    /// One for `true`, zero for `false`
    pub fn from_bool(value: bool) -> (r: Scalar)
        ensures
            r@ == (if value { 1nat } else { 0nat }),
            r == Scalar::of_nat(if value { 1nat } else { 0nat }),
    {
        if value {
            Scalar::one()
        } else {
            Scalar::zero()
        }
    }

    /// Whether this is the additive identity
    pub fn is_zero(&self) -> (r: bool)
        ensures
            r == (self@ == 0),
    {
        proof {
            lemma_modulus_bounds();
            if self.hi != 0 {
                assert(self.hi as nat * limb_base() >= limb_base()) by (nonlinear_arith)
                    requires
                        self.hi as nat >= 1,
                ;
            }
        }
        self.hi == 0 && self.lo == 0
    }

    /// The 32-byte big-endian encoding of the canonical representative
    pub fn to_bytes_be(&self) -> (r: Vec<u8>)
        ensures
            r@ == scalar_encoding(self@),
            r@.len() == SCALAR_BYTES,
            be_value(r@) == self@,
    {
        let mut out = limb_to_bytes(self.hi);
        let ghost upper = out@;
        let mut lower = limb_to_bytes(self.lo);
        let ghost lower_bytes = lower@;
        out.append(&mut lower);
        proof {
            lemma_be_value_concat(upper, lower_bytes);
            lemma_pow256_limb();
            assert(be_value(upper) * limb_base() == self.hi as nat * limb_base())
                by (nonlinear_arith)
                requires
                    be_value(upper) == self.hi as nat,
            ;
            assert forall|i: int| 0 <= i < 32 implies out@[i] == scalar_encoding(self@)[i] by {
                lemma_be_value_digit(out@, i);
            }
            assert(out@ =~= scalar_encoding(self@));
        }
        out
    }

    /// The scalar that a canonical 32-byte big-endian encoding stands for, and
    /// `None` for any other byte string
    pub fn from_bytes_be(bytes: &[u8]) -> (r: Option<Scalar>)
        ensures
            r is Some <==> (bytes@.len() == SCALAR_BYTES && be_value(bytes@) < scalar_modulus()),
            r matches Some(s) ==> s@ == be_value(bytes@),
            r == Scalar::decoding(bytes@),
    {
        if bytes.len() != SCALAR_BYTES {
            return None;
        }
        let hi = limb_from_bytes(bytes, 0);
        let lo = limb_from_bytes(bytes, 16);
        proof {
            lemma_modulus_bounds();
            lemma_pow256_limb();
            assert(bytes@ =~= bytes@.subrange(0, 16) + bytes@.subrange(16, 32));
            lemma_be_value_concat(bytes@.subrange(0, 16), bytes@.subrange(16, 32));
            assert(be_value(bytes@.subrange(0, 16)) * limb_base() == hi as nat * limb_base())
                by (nonlinear_arith)
                requires
                    be_value(bytes@.subrange(0, 16)) == hi as nat,
            ;
            assert(limbs_value(hi, lo) == be_value(bytes@));
            if hi < MODULUS_HI {
                assert(MODULUS_HI as nat * limb_base() >= (hi as nat + 1) * limb_base())
                    by (nonlinear_arith)
                    requires
                        MODULUS_HI as nat >= hi as nat + 1,
                ;
                assert((hi as nat + 1) * limb_base() == hi as nat * limb_base() + limb_base())
                    by (nonlinear_arith);
            }
            if hi > MODULUS_HI {
                assert(hi as nat * limb_base() >= (MODULUS_HI as nat + 1) * limb_base())
                    by (nonlinear_arith)
                    requires
                        hi as nat >= MODULUS_HI as nat + 1,
                ;
                assert((MODULUS_HI as nat + 1) * limb_base() == MODULUS_HI as nat * limb_base()
                    + limb_base()) by (nonlinear_arith);
            }
        }
        if hi < MODULUS_HI || (hi == MODULUS_HI && lo < MODULUS_LO) {
            let r = Scalar { hi, lo };
            proof {
                Scalar::lemma_of_nat_view(r);
            }
            Some(r)
        } else {
            None
        }
    }

    /// The scalar that a big-endian byte string of any length stands for, once
    /// reduced modulo the order of the field
    pub fn from_be_bytes_mod_order(bytes: &[u8]) -> (r: Scalar)
        ensures
            r@ == be_value(bytes@) % scalar_modulus(),
            r == Scalar::reduced(bytes@),
    {
        let mut acc = Scalar::zero();
        let shift = Scalar::from_u64(256);
        let mut i: usize = 0;
        proof {
            lemma_modulus_bounds();
            assert(bytes@.subrange(0, 0) =~= Seq::<u8>::empty());
            lemma_small_mod(0, scalar_modulus());
        }
        while i < bytes.len()
            invariant
                i <= bytes@.len(),
                shift@ == 256,
                acc@ == be_value(bytes@.subrange(0, i as int)) % scalar_modulus(),
            decreases bytes@.len() - i,
        {
            let digit = Scalar::from_u64(bytes[i] as u64);
            let ghost prefix = bytes@.subrange(0, i as int);
            acc = acc.mul(&shift).add(&digit);
            proof {
                lemma_modulus_bounds();
                let n = scalar_modulus() as int;
                let next = bytes@.subrange(0, i + 1);
                assert(next.drop_last() =~= prefix);
                assert(next.last() == bytes@[i as int]);
                let v = be_value(prefix) as int;
                let d = bytes@[i as int] as int;
                lemma_mul_mod_noop_left(v, 256, n);
                lemma_add_mod_noop_right(d, (v % n) * 256, n);
                lemma_add_mod_noop_right(d, v * 256, n);
                assert(acc@ == (((v % n) * 256) % n + d) % n);
            }
            i += 1;
        }
        proof {
            assert(bytes@.subrange(0, i as int) =~= bytes@);
            Scalar::lemma_of_nat_view(acc);
        }
        acc
    }

    /// Add two field elements
    pub fn add(&self, other: &Scalar) -> (r: Scalar)
        ensures
            r@ == field_add(self@, other@),
            r == self.add_spec(*other),
    {
        proof {
            use_type_invariant(self);
            use_type_invariant(other);
            lemma_modulus_bounds();
            lemma_hi_bound(self.hi, self.lo);
            lemma_hi_bound(other.hi, other.lo);
        }
        let (lo, carry): (u128, u128) = if self.lo > u128::MAX - other.lo {
            (self.lo - (u128::MAX - other.lo) - 1, 1)
        } else {
            (self.lo + other.lo, 0)
        };
        let hi: u128 = self.hi + other.hi + carry;
        let ghost total = self@ + other@;
        assert(limbs_value(hi, lo) == total) by (nonlinear_arith)
            requires
                hi == self.hi + other.hi + carry,
                lo + carry * limb_base() == self.lo + other.lo,
                total == self.hi as nat * limb_base() + self.lo as nat + other.hi as nat
                    * limb_base() + other.lo as nat,
        ;
        let r = reduce_once(hi, lo);
        proof {
            Scalar::lemma_of_nat_view(r);
        }
        r
    }

    /// Negate a field element
    pub fn neg(&self) -> (r: Scalar)
        ensures
            r@ == field_neg(self@),
            r == self.neg_spec(),
    {
        proof {
            use_type_invariant(self);
            lemma_modulus_bounds();
        }
        if self.hi == 0 && self.lo == 0 {
            proof {
                lemma_small_mod(0, scalar_modulus());
            }
            let r = Scalar { hi: 0, lo: 0 };
            proof {
                Scalar::lemma_of_nat_view(r);
            }
            r
        } else {
            let r = limbs_sub(MODULUS_HI, MODULUS_LO, self.hi, self.lo);
            proof {
                let n = scalar_modulus() as int;
                let v = self@ as int;
                assert(v > 0) by {
                    if self.hi != 0 {
                        assert(self.hi as nat * limb_base() >= limb_base()) by (nonlinear_arith)
                            requires
                                self.hi as nat >= 1,
                        ;
                    }
                }
                lemma_fundamental_div_mod_converse(-v, n, -1, n - v);
            }
            let r = Scalar { hi: r.0, lo: r.1 };
            proof {
                Scalar::lemma_of_nat_view(r);
            }
            r
        }
    }

    /// Subtract one field element from another
    pub fn sub(&self, other: &Scalar) -> (r: Scalar)
        ensures
            r@ == field_sub(self@, other@),
            r == self.sub_spec(*other),
    {
        let negated = other.neg();
        let r = self.add(&negated);
        proof {
            let n = scalar_modulus() as int;
            lemma_modulus_bounds();
            lemma_add_mod_noop_right(self@ as int, -(other@ as int), n);
            Scalar::lemma_of_nat_view(r);
        }
        r
    }

    /// Multiply two field elements
    pub fn mul(&self, other: &Scalar) -> (r: Scalar)
        ensures
            r@ == field_mul(self@, other@),
            r == self.mul_spec(*other),
    {
        let mut acc = Scalar::zero();
        let mut base = *self;
        let mut bh: u128 = other.hi;
        let mut bl: u128 = other.lo;
        proof {
            lemma_modulus_bounds();
        }
        while bh != 0 || bl != 0
            invariant
                (acc@ + base@ * limbs_value(bh, bl)) % scalar_modulus() == (self@ * other@)
                    % scalar_modulus(),
            decreases limbs_value(bh, bl),
        {
            let ghost old_acc = acc@;
            let ghost old_base = base@;
            let ghost old_hi = bh;
            let ghost old_lo = bl;
            let odd = bl % 2 == 1;
            if odd {
                acc = acc.add(&base);
            }
            base = base.add(&base);
            bl = if bh % 2 == 1 {
                bl / 2 + 0x8000_0000_0000_0000_0000_0000_0000_0000u128
            } else {
                bl / 2
            };
            bh = bh / 2;
            proof {
                lemma_modulus_bounds();
                let rest = limbs_value(bh, bl);
                let bit: nat = if odd { 1 } else { 0 };
                let carried: nat = if old_hi % 2 == 1 { 1 } else { 0 };
                let half: nat = 0x8000_0000_0000_0000_0000_0000_0000_0000nat;
                assert(limbs_value(old_hi, old_lo) == 2 * rest + bit) by (nonlinear_arith)
                    requires
                        old_hi == 2 * bh + carried,
                        old_lo == 2 * (old_lo / 2) + bit,
                        bl == old_lo / 2 + carried * half,
                        limb_base() == 2 * half,
                        rest == bh as nat * limb_base() + bl as nat,
                        limbs_value(old_hi, old_lo) == old_hi as nat * limb_base() + old_lo as nat,
                ;
                lemma_double_and_add_step(old_acc, old_base, rest, bit);
                use_type_invariant(acc);
                lemma_small_mod(acc@, scalar_modulus());
                assert(acc@ == (old_acc + bit * old_base) % scalar_modulus());
                assert(base@ == (old_base + old_base) % scalar_modulus());
            }
        }
        proof {
            assert(base@ * limbs_value(bh, bl) == 0) by (nonlinear_arith)
                requires
                    limbs_value(bh, bl) == 0,
            ;
            use_type_invariant(acc);
            lemma_small_mod(acc@, scalar_modulus());
            Scalar::lemma_of_nat_view(acc);
        }
        acc
    }
}

/// A value below the modulus has a small upper limb
proof fn lemma_hi_bound(hi: u128, lo: u128)
    requires
        limbs_value(hi, lo) < scalar_modulus(),
    ensures
        hi <= MODULUS_HI,
{
    lemma_modulus_bounds();
    if hi > MODULUS_HI {
        assert(hi as nat * limb_base() >= (MODULUS_HI as nat + 1) * limb_base())
            by (nonlinear_arith)
            requires
                hi as nat >= MODULUS_HI as nat + 1,
        ;
        assert((MODULUS_HI as nat + 1) * limb_base() == MODULUS_HI as nat * limb_base()
            + limb_base()) by (nonlinear_arith);
    }
}

/// One step of binary multiplication: moving the lowest bit of the multiplier
/// into the accumulator and doubling the base leaves the product unchanged
proof fn lemma_double_and_add_step(acc: nat, base: nat, rest: nat, bit: nat)
    requires
        bit <= 1,
    ensures
        (((acc + bit * base) % scalar_modulus()) + ((base + base) % scalar_modulus()) * rest)
            % scalar_modulus() == (acc + base * (2 * rest + bit)) % scalar_modulus(),
        bit == 1 ==> (acc + bit * base) == acc + base,
        bit == 0 ==> (acc + bit * base) % scalar_modulus() == acc % scalar_modulus(),
{
    lemma_modulus_bounds();
    let n = scalar_modulus() as int;
    let x = (acc + bit * base) as int;
    let y = (base + base) as int;
    let k = rest as int;
    let scaled = (y % n) * k;
    lemma_add_mod_noop_right(scaled, x, n);
    lemma_add_mod_noop_right(x, scaled, n);
    lemma_mul_mod_noop_left(y, k, n);
    lemma_add_mod_noop_right(x, y * k, n);
    assert(x + y * k == acc + base * (2 * rest + bit)) by (nonlinear_arith)
        requires
            x == acc + bit * base,
            y == base + base,
            k == rest,
    ;
    assert(bit == 1 ==> bit * base == base) by (nonlinear_arith);
    assert(bit == 0 ==> bit * base == 0) by (nonlinear_arith);
}

/// The sixteen big-endian bytes of one limb
fn limb_to_bytes(limb: u128) -> (r: Vec<u8>)
    ensures
        r@.len() == 16,
        be_value(r@) == limb as nat,
{
    let mut out: Vec<u8> = Vec::new();
    let mut divisor: u128 = 0x1_00_0000_0000_0000_0000_0000_0000_0000u128;
    let mut i: usize = 0;
    proof {
        reveal_with_fuel(pow256, 16);
        assert(pow256(15) == 0x1_00_0000_0000_0000_0000_0000_0000_0000nat);
        lemma_pow256_limb();
        lemma_modulus_bounds();
        lemma_div_denominator(limb as int, divisor as int, 256);
        assert(divisor as int * 256 == limb_base() as int) by (nonlinear_arith)
            requires
                divisor == 0x1_00_0000_0000_0000_0000_0000_0000_0000u128,
                limb_base() == 0xffff_ffff_ffff_ffff_ffff_ffff_ffff_ffffnat + 1,
        ;
        lemma_small_div_converse(limb as int, limb_base() as int);
        assert((limb as int) / (limb_base() as int) == 0) by {
            lemma_basic_div(limb as int, limb_base() as int);
        }
    }
    while i < 16
        invariant
            i <= 16,
            out@.len() == i,
            i < 16 ==> divisor as nat == pow256((15 - i) as nat),
            i < 16 ==> divisor > 0,
            i < 16 ==> be_value(out@) == (limb as int) / (divisor as int * 256),
            i == 16 ==> be_value(out@) == limb as nat,
        decreases 16 - i,
    {
        let digit: u128 = (limb / divisor) % 256;
        let ghost before = out@;
        out.push(digit as u8);
        proof {
            assert(out@.drop_last() =~= before);
            assert(divisor > 0) by {
                lemma_pow256_positive((15 - i) as nat);
            }
            lemma_div_denominator(limb as int, divisor as int, 256);
            let q = (limb as int) / (divisor as int);
            assert((limb as int) / (divisor as int * 256) == q / 256);
            assert(be_value(out@) == q);
            if i == 15 {
                assert(pow256(0) == 1);
                assert(q == limb as int) by (nonlinear_arith)
                    requires
                        divisor == 1,
                        q == (limb as int) / (divisor as int),
                ;
            }
        }
        i += 1;
        if i < 16 {
            proof {
                assert(pow256((16 - i) as nat) == 256 * pow256((15 - i) as nat));
                lemma_pow256_positive((15 - i) as nat);
                assert((divisor / 256) as int * 256 == divisor as int);
            }
            divisor = divisor / 256;
        } else {
            proof {
                assert(pow256(0) == 1);
            }
        }
    }
    out
}

/// Every power of 256 is positive
pub proof fn lemma_pow256_positive(k: nat)
    ensures
        pow256(k) > 0,
    decreases k,
{
    if k > 0 {
        lemma_pow256_positive((k - 1) as nat);
    }
}

/// The limb that sixteen big-endian bytes, starting at `start`, stand for
fn limb_from_bytes(bytes: &[u8], start: usize) -> (r: u128)
    requires
        start + 16 <= bytes@.len(),
    ensures
        r as nat == be_value(bytes@.subrange(start as int, start + 16)),
{
    let mut acc: u128 = 0;
    let mut i: usize = 0;
    let len = bytes.len();
    proof {
        assert(bytes@.subrange(start as int, start as int) =~= Seq::<u8>::empty());
    }
    while i < 16
        invariant
            i <= 16,
            len == bytes@.len(),
            start + 16 <= len,
            acc as nat == be_value(bytes@.subrange(start as int, start + i)),
        decreases 16 - i,
    {
        let ghost prefix = bytes@.subrange(start as int, start + i);
        proof {
            lemma_be_value_bound(prefix);
            reveal_with_fuel(pow256, 17);
            lemma_pow256_monotone(i as nat, 15);
            assert(pow256(15) == 0x1_00_0000_0000_0000_0000_0000_0000_0000nat);
            let next = bytes@.subrange(start as int, start + i + 1);
            assert(next.drop_last() =~= prefix);
            assert(next.last() == bytes@[start + i]);
        }
        acc = acc * 256 + bytes[start + i] as u128;
        i += 1;
    }
    acc
}

/// Powers of 256 grow with the exponent
pub proof fn lemma_pow256_monotone(a: nat, b: nat)
    requires
        a <= b,
    ensures
        pow256(a) <= pow256(b),
    decreases b,
{
    if a < b {
        lemma_pow256_monotone(a, (b - 1) as nat);
    }
}

/// The limbs of the difference of two numbers, the first at least the second
fn limbs_sub(ah: u128, al: u128, bh: u128, bl: u128) -> (r: (u128, u128))
    requires
        limbs_value(ah, al) >= limbs_value(bh, bl),
    ensures
        limbs_value(r.0, r.1) == limbs_value(ah, al) - limbs_value(bh, bl),
{
    proof {
        lemma_modulus_bounds();
        if ah < bh {
            assert(bh as nat * limb_base() >= (ah as nat + 1) * limb_base()) by (nonlinear_arith)
                requires
                    bh as nat >= ah as nat + 1,
            ;
            assert((ah as nat + 1) * limb_base() == ah as nat * limb_base() + limb_base())
                by (nonlinear_arith);
        }
    }
    if al >= bl {
        let hi: u128 = ah - bh;
        let lo: u128 = al - bl;
        assert(limbs_value(hi, lo) == limbs_value(ah, al) - limbs_value(bh, bl))
            by (nonlinear_arith)
            requires
                hi == ah - bh,
                lo == al - bl,
        ;
        (hi, lo)
    } else {
        let hi: u128 = ah - bh - 1;
        let lo: u128 = al + (u128::MAX - bl) + 1;
        assert(limbs_value(hi, lo) == limbs_value(ah, al) - limbs_value(bh, bl))
            by (nonlinear_arith)
            requires
                hi == ah - bh - 1,
                lo == al + limb_base() - bl,
        ;
        (hi, lo)
    }
}

/// Bring a number below twice the modulus into the canonical range
fn reduce_once(hi: u128, lo: u128) -> (r: Scalar)
    requires
        limbs_value(hi, lo) < 2 * scalar_modulus(),
    ensures
        r@ == limbs_value(hi, lo) % scalar_modulus(),
{
    proof {
        lemma_modulus_bounds();
    }
    let below = hi < MODULUS_HI || (hi == MODULUS_HI && lo < MODULUS_LO);
    proof {
        if hi < MODULUS_HI {
            assert(MODULUS_HI as nat * limb_base() >= (hi as nat + 1) * limb_base())
                by (nonlinear_arith)
                requires
                    MODULUS_HI as nat >= hi as nat + 1,
            ;
            assert((hi as nat + 1) * limb_base() == hi as nat * limb_base() + limb_base())
                by (nonlinear_arith);
        }
        if hi > MODULUS_HI {
            assert(hi as nat * limb_base() >= (MODULUS_HI as nat + 1) * limb_base())
                by (nonlinear_arith)
                requires
                    hi as nat >= MODULUS_HI as nat + 1,
            ;
            assert((MODULUS_HI as nat + 1) * limb_base() == MODULUS_HI as nat * limb_base()
                + limb_base()) by (nonlinear_arith);
        }
    }
    if below {
        proof {
            lemma_small_mod(limbs_value(hi, lo), scalar_modulus());
        }
        Scalar { hi, lo }
    } else {
        let r = limbs_sub(hi, lo, MODULUS_HI, MODULUS_LO);
        proof {
            let n = scalar_modulus() as int;
            let v = limbs_value(hi, lo) as int;
            lemma_fundamental_div_mod_converse(v, n, 1, v - n);
        }
        Scalar { hi: r.0, lo: r.1 }
    }
}

/// Sixty-four bytes from the thread's random number generator.
///
/// Trusted: `RngCore::fill_bytes` fills the whole buffer; nothing is claimed of
/// the bytes themselves.
#[verifier::external_body]
fn random_bytes() -> (r: Vec<u8>)
    ensures
        r@.len() == 64,
{
    let mut bytes = vec![0u8; 64];
    rand::thread_rng().fill_bytes(&mut bytes);
    bytes
}

impl Scalar {
    /// A random scalar: sixty-four random bytes, reduced modulo the order of
    /// the field
    pub fn random() -> (r: Scalar)
        ensures
            exists|bytes: Seq<u8>| bytes.len() == 64 && r == #[trigger] Scalar::reduced(bytes),
    {
        let bytes = random_bytes();
        let r = Scalar::from_be_bytes_mod_order(bytes.as_slice());
        assert(r == Scalar::reduced(bytes@));
        r
    }
}

/// A handle to a scalar result
pub type ScalarResult = ResultHandle<Scalar>;

/// A handle to a result that is a batch of scalars
pub type BatchScalarResult = ResultHandle<Vec<Scalar>>;

impl ResultHandle<Scalar> {
    /// Add two results
    pub fn add<S: SharedValueSource>(&self, fabric: &mut MpcFabric<S>, rhs: &ResultHandle<Scalar>) -> (r: ResultHandle<Scalar>)
        requires
            old(fabric).wf(),
            old(fabric)@.has_room(1),
        ensures
            final(fabric).wf(),
            r.id == old(fabric)@.next_result_id,
            final(fabric)@ == old(fabric)@.with_gate(seq![self.id, rhs.id], GateFunction::Add),
    {
        fabric.binary_gate(self.id, rhs.id, GateFunction::Add)
    }

    /// Add a public constant to a result
    pub fn add_scalar<S: SharedValueSource>(&self, fabric: &mut MpcFabric<S>, rhs: Scalar) -> (r: ResultHandle<Scalar>)
        requires
            old(fabric).wf(),
            old(fabric)@.has_room(1),
        ensures
            final(fabric).wf(),
            r.id == old(fabric)@.next_result_id,
            final(fabric)@ == old(fabric)@.with_gate(seq![self.id], GateFunction::AddConstant(Constant::Scalar(rhs))),
    {
        fabric.unary_gate(self.id, GateFunction::AddConstant(Constant::Scalar(rhs)))
    }

    /// Subtract a result from another
    pub fn sub<S: SharedValueSource>(&self, fabric: &mut MpcFabric<S>, rhs: &ResultHandle<Scalar>) -> (r: ResultHandle<Scalar>)
        requires
            old(fabric).wf(),
            old(fabric)@.has_room(1),
        ensures
            final(fabric).wf(),
            r.id == old(fabric)@.next_result_id,
            final(fabric)@ == old(fabric)@.with_gate(seq![self.id, rhs.id], GateFunction::Sub),
    {
        fabric.binary_gate(self.id, rhs.id, GateFunction::Sub)
    }

    /// Subtract a public constant from a result
    pub fn sub_scalar<S: SharedValueSource>(&self, fabric: &mut MpcFabric<S>, rhs: Scalar) -> (r: ResultHandle<Scalar>)
        requires
            old(fabric).wf(),
            old(fabric)@.has_room(1),
        ensures
            final(fabric).wf(),
            r.id == old(fabric)@.next_result_id,
            final(fabric)@ == old(fabric)@.with_gate(seq![self.id], GateFunction::SubConstant(Constant::Scalar(rhs))),
    {
        fabric.unary_gate(self.id, GateFunction::SubConstant(Constant::Scalar(rhs)))
    }

    /// Negate a result
    pub fn neg<S: SharedValueSource>(&self, fabric: &mut MpcFabric<S>) -> (r: ResultHandle<Scalar>)
        requires
            old(fabric).wf(),
            old(fabric)@.has_room(1),
        ensures
            final(fabric).wf(),
            r.id == old(fabric)@.next_result_id,
            final(fabric)@ == old(fabric)@.with_gate(seq![self.id], GateFunction::Neg),
    {
        fabric.unary_gate(self.id, GateFunction::Neg)
    }

    /// Multiply two results
    pub fn mul<S: SharedValueSource>(&self, fabric: &mut MpcFabric<S>, rhs: &ResultHandle<Scalar>) -> (r: ResultHandle<Scalar>)
        requires
            old(fabric).wf(),
            old(fabric)@.has_room(1),
        ensures
            final(fabric).wf(),
            r.id == old(fabric)@.next_result_id,
            final(fabric)@ == old(fabric)@.with_gate(seq![self.id, rhs.id], GateFunction::Mul),
    {
        fabric.binary_gate(self.id, rhs.id, GateFunction::Mul)
    }

    /// Multiply a result by a public constant
    pub fn mul_scalar<S: SharedValueSource>(&self, fabric: &mut MpcFabric<S>, rhs: Scalar) -> (r: ResultHandle<Scalar>)
        requires
            old(fabric).wf(),
            old(fabric)@.has_room(1),
        ensures
            final(fabric).wf(),
            r.id == old(fabric)@.next_result_id,
            final(fabric)@ == old(fabric)@.with_gate(seq![self.id], GateFunction::MulConstant(Constant::Scalar(rhs))),
    {
        fabric.unary_gate(self.id, GateFunction::MulConstant(Constant::Scalar(rhs)))
    }

    /// Multiply a point result by this scalar result
    pub fn mul_point<S: SharedValueSource>(&self, fabric: &mut MpcFabric<S>, rhs: &ResultHandle<StarkPoint>) -> (r: ResultHandle<StarkPoint>)
        requires
            old(fabric).wf(),
            old(fabric)@.has_room(1),
        ensures
            final(fabric).wf(),
            r.id == old(fabric)@.next_result_id,
            final(fabric)@ == old(fabric)@.with_gate(seq![self.id, rhs.id], GateFunction::Mul),
    {
        fabric.binary_gate(self.id, rhs.id, GateFunction::Mul)
    }

    /// Multiply a public point by this scalar result
    pub fn mul_constant_point<S: SharedValueSource>(&self, fabric: &mut MpcFabric<S>, rhs: StarkPoint) -> (r: ResultHandle<StarkPoint>)
        requires
            old(fabric).wf(),
            old(fabric)@.has_room(1),
        ensures
            final(fabric).wf(),
            r.id == old(fabric)@.next_result_id,
            final(fabric)@ == old(fabric)@.with_gate(seq![self.id], GateFunction::MulConstant(Constant::Point(rhs))),
    {
        fabric.unary_gate(self.id, GateFunction::MulConstant(Constant::Point(rhs)))
    }

    /// Multiply two batches of scalars, element by element
    pub fn batch_mul<S: SharedValueSource>(
        fabric: &mut MpcFabric<S>,
        a: &[ResultHandle<Scalar>],
        b: &[ResultHandle<Scalar>],
    ) -> (r: Vec<ResultHandle<Scalar>>)
        requires
            old(fabric).wf(),
            a@.len() == b@.len(),
            old(fabric)@.has_room(a@.len() as int),
        ensures
            final(fabric).wf(),
            r@.len() == a@.len(),
            crate::fabric::result::ids_of(r@) == crate::fabric::result::range_ids(
                old(fabric)@.next_result_id,
                a@.len() as int,
            ),
            a@.len() > 0 ==> final(fabric)@.advanced(old(fabric)@, a@.len() as int, 1, 0),
            final(fabric)@ == (if a@.len() == 0 {
                old(fabric)@
            } else {
                old(fabric)@.with_batch_gate(
                    crate::fabric::result::ids_of(a@) + crate::fabric::result::ids_of(b@),
                    a@.len() as int,
                    crate::fabric::gate::BatchGateFunction::BatchMul,
                )
            }),
    {
        if a.len() == 0 {
            let r: Vec<ResultHandle<Scalar>> = Vec::new();
            assert(crate::fabric::result::ids_of(r@) =~= crate::fabric::result::range_ids(
                old(fabric)@.next_result_id,
                0,
            ));
            return r;
        }
        fabric.batch_gate(
            crate::fabric::result::collect_ids(a),
            crate::fabric::result::collect_ids(b),
            a.len(),
            crate::fabric::gate::BatchGateFunction::BatchMul,
        )
    }
}

} // verus!
