//! The group of points on the Stark curve. The curve arithmetic itself is that
//! of `starknet-types-core`; this module gives each point a plain
//! representation and names what the curve operations return.

use starknet_types_core::curve::AffinePoint;
use starknet_types_core::curve::ProjectivePoint;
use starknet_types_core::felt::Felt;
use vstd::prelude::*;

use crate::beaver::SharedValueSource;
use crate::fabric::gate::BatchGateFunction;
use crate::fabric::gate::Constant;
use crate::fabric::gate::GateFunction;
use crate::fabric::result::ids_of;
use crate::fabric::result::ResultHandle;
use crate::fabric::MpcFabric;

use crate::algebra::scalar::scalar_encoding;
use crate::algebra::scalar::Scalar;

verus! {

/// The number of bytes in the encoding of one coordinate
pub const COORDINATE_BYTES: usize = 32;

/// A point on the Stark curve, held as the big-endian bytes of its normalized
/// projective coordinates: `(x, y, 1)` for an affine point and `(0, 1, 0)` for
/// the point at infinity
#[derive(Clone, Copy, Debug, PartialEq, Eq)]
pub struct StarkPoint {
    /// The `x` coordinate
    x: [u8; 32],
    /// The `y` coordinate
    y: [u8; 32],
    /// The `z` coordinate, one for an affine point and zero for the identity
    z: [u8; 32],
}

/// What `ProjectivePoint::new` followed by normalization makes of three
/// coordinates: the point they describe, or nothing when they satisfy neither
/// the curve equation nor the form of the point at infinity
pub uninterp spec fn point_decoding(x: Seq<u8>, y: Seq<u8>, z: Seq<u8>) -> Option<StarkPoint>;

/// What the curve's group operation returns on two points
pub uninterp spec fn point_sum(a: StarkPoint, b: StarkPoint) -> StarkPoint;

/// What the curve's negation returns on a point
pub uninterp spec fn point_negation(a: StarkPoint) -> StarkPoint;

/// What multiplying a point by the field element with the given big-endian
/// bytes returns; bytes that stand for an integer beyond the prime of the base
/// field are reduced by it first
pub uninterp spec fn point_scalar_product(scalar: Seq<u8>, a: StarkPoint) -> StarkPoint;

/// The big-endian bytes of the field element zero
pub open spec fn coordinate_zero() -> Seq<u8> {
    Seq::new(32, |i: int| 0u8)
}

/// The big-endian bytes of the field element one
pub open spec fn coordinate_one() -> Seq<u8> {
    Seq::new(32, |i: int| if i == 31 { 1u8 } else { 0u8 })
}

/// The `x` coordinate of the curve's generator
pub open spec fn generator_x() -> Seq<u8> {
    seq![
        0x01u8, 0xef, 0x15, 0xc1, 0x85, 0x99, 0x97, 0x1b, 0x7b, 0xec, 0xed, 0x41, 0x5a, 0x40, 0xf0,
        0xc7, 0xde, 0xac, 0xfd, 0x9b, 0x0d, 0x18, 0x19, 0xe0, 0x3d, 0x72, 0x3d, 0x8b, 0xc9, 0x43,
        0xcf, 0xca,
    ]
}

/// The `y` coordinate of the curve's generator
pub open spec fn generator_y() -> Seq<u8> {
    seq![
        0x00u8, 0x56, 0x68, 0x06, 0x0a, 0xa4, 0x97, 0x30, 0xb7, 0xbe, 0x48, 0x01, 0xdf, 0x46, 0xec,
        0x62, 0xde, 0x53, 0xec, 0xd1, 0x1a, 0xbe, 0x43, 0xa3, 0x28, 0x73, 0x00, 0x0c, 0x36, 0xe8,
        0xdc, 0x1f,
    ]
}

impl StarkPoint {
    /// Every point is one that decoding its own coordinates gives back: its
    /// coordinates lie on the curve and are normalized
    #[verifier::type_invariant]
    spec fn on_curve(self) -> bool {
        point_decoding(self.x@, self.y@, self.z@) == Some(self)
    }

    /// The big-endian bytes of the `x` coordinate
    pub closed spec fn x_bytes(self) -> Seq<u8> {
        self.x@
    }

    /// The big-endian bytes of the `y` coordinate
    pub closed spec fn y_bytes(self) -> Seq<u8> {
        self.y@
    }

    /// The big-endian bytes of the `z` coordinate
    pub closed spec fn z_bytes(self) -> Seq<u8> {
        self.z@
    }

    /// Whether this is the point at infinity
    pub open spec fn is_identity_spec(self) -> bool {
        self.z_bytes() == coordinate_zero()
    }

    /// The difference of two points, the first plus the negation of the second
    pub open spec fn difference(a: StarkPoint, b: StarkPoint) -> StarkPoint {
        point_sum(a, point_negation(b))
    }

    /// The encoding of a point: its three coordinates, one after the other
    pub open spec fn encoding(self) -> Seq<u8> {
        self.x_bytes() + self.y_bytes() + self.z_bytes()
    }

    /// The product of a point and the scalar with the given representative
    pub open spec fn product(scalar: nat, a: StarkPoint) -> StarkPoint {
        point_scalar_product(scalar_encoding(scalar), a)
    }

    /// Two points with the same coordinates are the same point
    pub proof fn lemma_coordinates_injective(a: StarkPoint, b: StarkPoint)
        requires
            a.x_bytes() == b.x_bytes(),
            a.y_bytes() == b.y_bytes(),
            a.z_bytes() == b.z_bytes(),
        ensures
            a == b,
    {
        assert(a.x == b.x);
        assert(a.y == b.y);
        assert(a.z == b.z);
    }

    /// The point at infinity: the point with the coordinates `(0, 1, 0)`
    pub open spec fn identity_spec() -> StarkPoint {
        choose|p: StarkPoint|
            p.x_bytes() == coordinate_zero() && p.y_bytes() == coordinate_one() && p.z_bytes()
                == coordinate_zero()
    }

    /// The generator: the affine point with the generator's coordinates
    pub open spec fn generator_spec() -> StarkPoint {
        choose|p: StarkPoint|
            p.x_bytes() == generator_x() && p.y_bytes() == generator_y() && p.z_bytes()
                == coordinate_one()
    }

    /// The point at infinity, the identity of the group
    pub fn identity() -> (r: StarkPoint)
        ensures
            r == StarkPoint::identity_spec(),
            r.x_bytes() == coordinate_zero(),
            r.y_bytes() == coordinate_one(),
            r.z_bytes() == coordinate_zero(),
            r.is_identity_spec(),
    {
        let r = curve_identity();
        proof {
            StarkPoint::lemma_coordinates_injective(r, StarkPoint::identity_spec());
        }
        r
    }

    /// The generator of the curve group
    pub fn generator() -> (r: StarkPoint)
        ensures
            r == StarkPoint::generator_spec(),
            r.x_bytes() == generator_x(),
            r.y_bytes() == generator_y(),
            r.z_bytes() == coordinate_one(),
    {
        let r = curve_generator();
        proof {
            StarkPoint::lemma_coordinates_injective(r, StarkPoint::generator_spec());
        }
        r
    }

    /// The point that three big-endian coordinates describe, if they describe one
    pub fn from_coordinates(x: &[u8], y: &[u8], z: &[u8]) -> (r: Option<StarkPoint>)
        ensures
            r == point_decoding(x@, y@, z@),
    {
        curve_decode(x, y, z)
    }

    /// The point that a 96-byte encoding stands for: the point that its three
    /// coordinates describe, if they describe one and are its normalized
    /// coordinates
    pub open spec fn decoding(bytes: Seq<u8>) -> Option<StarkPoint> {
        if bytes.len() == 3 * COORDINATE_BYTES {
            match point_decoding(
                bytes.subrange(0, 32),
                bytes.subrange(32, 64),
                bytes.subrange(64, 96),
            ) {
                Some(point) => if point.encoding() == bytes {
                    Some(point)
                } else {
                    None
                },
                None => None,
            }
        } else {
            None
        }
    }

    /// The point that a 96-byte encoding stands for, if it stands for one
    pub fn from_bytes(bytes: &[u8]) -> (r: Option<StarkPoint>)
        ensures
            r == StarkPoint::decoding(bytes@),
    {
        if bytes.len() != 3 * COORDINATE_BYTES {
            return None;
        }
        let x = vstd::slice::slice_subrange(bytes, 0, 32);
        let y = vstd::slice::slice_subrange(bytes, 32, 64);
        let z = vstd::slice::slice_subrange(bytes, 64, 96);
        match curve_decode(x, y, z) {
            Some(point) => {
                let encoded = point.to_bytes();
                let mut i: usize = 0;
                while i < 96
                    invariant
                        i <= 96,
                        bytes@.len() == 96,
                        encoded@.len() == 96,
                        encoded@ == point.encoding(),
                        point_decoding(
                            bytes@.subrange(0, 32),
                            bytes@.subrange(32, 64),
                            bytes@.subrange(64, 96),
                        ) == Some(point),
                        forall|j: int| 0 <= j < i ==> encoded@[j] == bytes@[j],
                    decreases 96 - i,
                {
                    if encoded[i] != bytes[i] {
                        return None;
                    }
                    i += 1;
                }
                assert(encoded@ =~= bytes@);
                Some(point)
            },
            None => None,
        }
    }

    /// Every point that a program holds is the one that its own encoding
    /// stands for
    pub fn encoding_round_trips(&self)
        ensures
            StarkPoint::decoding(self.encoding()) == Some(*self),
    {
        proof {
            use_type_invariant(self);
            let bytes = self.encoding();
            assert(bytes.subrange(0, 32) =~= self.x@);
            assert(bytes.subrange(32, 64) =~= self.y@);
            assert(bytes.subrange(64, 96) =~= self.z@);
        }
    }

    /// The 96-byte encoding of a point
    pub fn to_bytes(&self) -> (r: Vec<u8>)
        ensures
            r@ == self.encoding(),
    {
        let mut out: Vec<u8> = Vec::new();
        let mut i: usize = 0;
        while i < 32
            invariant
                i <= 32,
                out@ == self.x@.subrange(0, i as int),
            decreases 32 - i,
        {
            out.push(self.x[i]);
            assert(out@ =~= self.x@.subrange(0, i + 1));
            i += 1;
        }
        assert(out@ =~= self.x@);
        i = 0;
        while i < 32
            invariant
                i <= 32,
                out@ == self.x@ + self.y@.subrange(0, i as int),
            decreases 32 - i,
        {
            out.push(self.y[i]);
            assert(out@ =~= self.x@ + self.y@.subrange(0, i + 1));
            i += 1;
        }
        assert(out@ =~= self.x@ + self.y@);
        i = 0;
        while i < 32
            invariant
                i <= 32,
                out@ == self.x@ + self.y@ + self.z@.subrange(0, i as int),
            decreases 32 - i,
        {
            out.push(self.z[i]);
            assert(out@ =~= self.x@ + self.y@ + self.z@.subrange(0, i + 1));
            i += 1;
        }
        assert(out@ =~= self.x@ + self.y@ + self.z@);
        out
    }

    /// Whether two points are the same
    pub fn equals(&self, other: &StarkPoint) -> (r: bool)
        ensures
            r == (*self == *other),
    {
        let same = coordinates_equal(&self.x, &other.x) && coordinates_equal(&self.y, &other.y)
            && coordinates_equal(&self.z, &other.z);
        proof {
            if same {
                assert(self.x == other.x);
                assert(self.y == other.y);
                assert(self.z == other.z);
            }
        }
        same
    }

    /// Whether this is the point at infinity
    pub fn is_identity(&self) -> (r: bool)
        ensures
            r == self.is_identity_spec(),
    {
        let mut i: usize = 0;
        while i < 32
            invariant
                i <= 32,
                forall|j: int| 0 <= j < i ==> self.z@[j] == 0u8,
            decreases 32 - i,
        {
            if self.z[i] != 0 {
                assert(coordinate_zero()[i as int] == 0u8);
                return false;
            }
            i += 1;
        }
        assert(self.z@ =~= coordinate_zero());
        true
    }

    /// Add two points
    pub fn add(&self, other: &StarkPoint) -> (r: StarkPoint)
        ensures
            r == point_sum(*self, *other),
            other.is_identity_spec() ==> r == *self,
            self.is_identity_spec() ==> r == *other,
    {
        curve_add(self, other)
    }

    /// Negate a point
    pub fn neg(&self) -> (r: StarkPoint)
        ensures
            r == point_negation(*self),
    {
        curve_neg(self)
    }

    /// Subtract one point from another
    pub fn sub(&self, other: &StarkPoint) -> (r: StarkPoint)
        ensures
            r == StarkPoint::difference(*self, *other),
    {
        let negated = curve_neg(other);
        curve_add(self, &negated)
    }

    /// Multiply a point by a scalar
    pub fn mul(&self, scalar: &Scalar) -> (r: StarkPoint)
        ensures
            r == StarkPoint::product(scalar@, *self),
    {
        let bytes = scalar.to_bytes_be();
        curve_mul(self, bytes.as_slice())
    }
}

/// Whether two coordinates hold the same bytes
fn coordinates_equal(a: &[u8; 32], b: &[u8; 32]) -> (r: bool)
    ensures
        r == (a@ == b@),
{
    let mut i: usize = 0;
    while i < 32
        invariant
            i <= 32,
            forall|j: int| 0 <= j < i ==> a@[j] == b@[j],
        decreases 32 - i,
    {
        if a[i] != b[i] {
            return false;
        }
        i += 1;
    }
    assert(a@ =~= b@);
    true
}

/// The point at infinity.
///
/// Trusted: `ProjectivePoint::identity` returns the coordinates `(0, 1, 0)`.
#[verifier::external_body]
fn curve_identity() -> (r: StarkPoint)
    ensures
        r.x_bytes() == coordinate_zero(),
        r.y_bytes() == coordinate_one(),
        r.z_bytes() == coordinate_zero(),
{
    let p = ProjectivePoint::identity();
    StarkPoint { x: p.x().to_bytes_be(), y: p.y().to_bytes_be(), z: p.z().to_bytes_be() }
}

/// The generator of the curve group.
///
/// Trusted: `AffinePoint::generator` returns the affine point whose
/// coordinates the curve's definition fixes.
#[verifier::external_body]
fn curve_generator() -> (r: StarkPoint)
    ensures
        r.x_bytes() == generator_x(),
        r.y_bytes() == generator_y(),
        r.z_bytes() == coordinate_one(),
{
    let p = AffinePoint::generator();
    StarkPoint { x: p.x().to_bytes_be(), y: p.y().to_bytes_be(), z: Felt::ONE.to_bytes_be() }
}

/// The point that three big-endian coordinates describe, if they describe one.
///
/// Trusted: `ProjectivePoint::new` accepts exactly the coordinates that satisfy
/// the curve equation or have the form `(0, _, 0)`; what comes back here is its
/// answer, normalized, under the name `point_decoding`.
#[verifier::external_body]
fn curve_decode(x: &[u8], y: &[u8], z: &[u8]) -> (r: Option<StarkPoint>)
    ensures
        r == point_decoding(x@, y@, z@),
{
    let x = Felt::from_bytes_be_slice(x);
    let y = Felt::from_bytes_be_slice(y);
    let p = ProjectivePoint::new(x, y, Felt::from_bytes_be_slice(z)).ok()?;
    let [x, y, z] = match p.to_affine() {
        Ok(q) => [q.x(), q.y(), Felt::ONE],
        Err(_) => [p.x(), p.y(), p.z()],
    };
    Some(StarkPoint { x: x.to_bytes_be(), y: y.to_bytes_be(), z: z.to_bytes_be() })
}

/// The sum of two points.
///
/// Trusted: the sum is what the curve's group operation (`+` on
/// `ProjectivePoint`) returns, named `point_sum`; that operation hands back the
/// other operand unchanged when one of the two is the point at infinity.
#[verifier::external_body]
fn curve_add(a: &StarkPoint, b: &StarkPoint) -> (r: StarkPoint)
    ensures
        r == point_sum(*a, *b),
        b.is_identity_spec() ==> r == *a,
        a.is_identity_spec() ==> r == *b,
{
    let a = ProjectivePoint::new_unchecked(
        Felt::from_bytes_be(&a.x), Felt::from_bytes_be(&a.y), Felt::from_bytes_be(&a.z),
    );
    let b = ProjectivePoint::new_unchecked(
        Felt::from_bytes_be(&b.x), Felt::from_bytes_be(&b.y), Felt::from_bytes_be(&b.z),
    );
    let o = ProjectivePoint::identity();
    let [x, y, z] = match (&a + &b).to_affine() {
        Ok(q) => [q.x(), q.y(), Felt::ONE],
        Err(_) => [o.x(), o.y(), o.z()],
    };
    StarkPoint { x: x.to_bytes_be(), y: y.to_bytes_be(), z: z.to_bytes_be() }
}

/// The negation of a point.
///
/// Trusted: the result is what the curve's negation (`-` on `ProjectivePoint`)
/// returns, named `point_negation`.
#[verifier::external_body]
fn curve_neg(a: &StarkPoint) -> (r: StarkPoint)
    ensures
        r == point_negation(*a),
{
    let a = ProjectivePoint::new_unchecked(
        Felt::from_bytes_be(&a.x), Felt::from_bytes_be(&a.y), Felt::from_bytes_be(&a.z),
    );
    let o = ProjectivePoint::identity();
    let [x, y, z] = match (-&a).to_affine() {
        Ok(q) => [q.x(), q.y(), Felt::ONE],
        Err(_) => [o.x(), o.y(), o.z()],
    };
    StarkPoint { x: x.to_bytes_be(), y: y.to_bytes_be(), z: z.to_bytes_be() }
}

/// The product of a point and the field element that big-endian bytes stand
/// for.
///
/// Trusted: the result is what multiplication by a field element (`*` on
/// `ProjectivePoint`) returns, named `point_scalar_product`.
#[verifier::external_body]
fn curve_mul(a: &StarkPoint, scalar: &[u8]) -> (r: StarkPoint)
    ensures
        r == point_scalar_product(scalar@, *a),
{
    let a = ProjectivePoint::new_unchecked(
        Felt::from_bytes_be(&a.x), Felt::from_bytes_be(&a.y), Felt::from_bytes_be(&a.z),
    );
    let o = ProjectivePoint::identity();
    let [x, y, z] = match (&a * Felt::from_bytes_be_slice(scalar)).to_affine() {
        Ok(q) => [q.x(), q.y(), Felt::ONE],
        Err(_) => [o.x(), o.y(), o.z()],
    };
    StarkPoint { x: x.to_bytes_be(), y: y.to_bytes_be(), z: z.to_bytes_be() }
}

/// A handle to a point result
pub type StarkPointResult = ResultHandle<StarkPoint>;

/// A handle to a result that is a batch of points
pub type BatchStarkPointResult = ResultHandle<Vec<StarkPoint>>;

impl ResultHandle<StarkPoint> {
    /// Add two results
    pub fn add<S: SharedValueSource>(&self, fabric: &mut MpcFabric<S>, rhs: &ResultHandle<StarkPoint>) -> (r: ResultHandle<StarkPoint>)
        requires
            old(fabric).wf(),
            old(fabric)@.has_room(1),
        ensures
            final(fabric).wf(),
            r.id == old(fabric)@.next_result_id,
            final(fabric)@ == old(fabric)@.with_gate(seq![self.id, rhs.id], GateFunction::Add),
    {
        fabric.binary_gate(self.id, rhs.id, GateFunction::Add)
    }

    /// Add a public constant to a result
    pub fn add_point<S: SharedValueSource>(&self, fabric: &mut MpcFabric<S>, rhs: StarkPoint) -> (r: ResultHandle<StarkPoint>)
        requires
            old(fabric).wf(),
            old(fabric)@.has_room(1),
        ensures
            final(fabric).wf(),
            r.id == old(fabric)@.next_result_id,
            final(fabric)@ == old(fabric)@.with_gate(seq![self.id], GateFunction::AddConstant(Constant::Point(rhs))),
    {
        fabric.unary_gate(self.id, GateFunction::AddConstant(Constant::Point(rhs)))
    }

    /// Subtract a result from another
    pub fn sub<S: SharedValueSource>(&self, fabric: &mut MpcFabric<S>, rhs: &ResultHandle<StarkPoint>) -> (r: ResultHandle<StarkPoint>)
        requires
            old(fabric).wf(),
            old(fabric)@.has_room(1),
        ensures
            final(fabric).wf(),
            r.id == old(fabric)@.next_result_id,
            final(fabric)@ == old(fabric)@.with_gate(seq![self.id, rhs.id], GateFunction::Sub),
    {
        fabric.binary_gate(self.id, rhs.id, GateFunction::Sub)
    }

    /// Subtract a public constant from a result
    pub fn sub_point<S: SharedValueSource>(&self, fabric: &mut MpcFabric<S>, rhs: StarkPoint) -> (r: ResultHandle<StarkPoint>)
        requires
            old(fabric).wf(),
            old(fabric)@.has_room(1),
        ensures
            final(fabric).wf(),
            r.id == old(fabric)@.next_result_id,
            final(fabric)@ == old(fabric)@.with_gate(seq![self.id], GateFunction::SubConstant(Constant::Point(rhs))),
    {
        fabric.unary_gate(self.id, GateFunction::SubConstant(Constant::Point(rhs)))
    }

    /// Negate a result
    pub fn neg<S: SharedValueSource>(&self, fabric: &mut MpcFabric<S>) -> (r: ResultHandle<StarkPoint>)
        requires
            old(fabric).wf(),
            old(fabric)@.has_room(1),
        ensures
            final(fabric).wf(),
            r.id == old(fabric)@.next_result_id,
            final(fabric)@ == old(fabric)@.with_gate(seq![self.id], GateFunction::Neg),
    {
        fabric.unary_gate(self.id, GateFunction::Neg)
    }

    /// Multiply a point result by a scalar result
    pub fn mul<S: SharedValueSource>(&self, fabric: &mut MpcFabric<S>, rhs: &ResultHandle<Scalar>) -> (r: ResultHandle<StarkPoint>)
        requires
            old(fabric).wf(),
            old(fabric)@.has_room(1),
        ensures
            final(fabric).wf(),
            r.id == old(fabric)@.next_result_id,
            final(fabric)@ == old(fabric)@.with_gate(seq![rhs.id, self.id], GateFunction::Mul),
    {
        fabric.binary_gate(rhs.id, self.id, GateFunction::Mul)
    }

    /// Multiply a result by a public scalar
    pub fn mul_scalar<S: SharedValueSource>(&self, fabric: &mut MpcFabric<S>, rhs: Scalar) -> (r: ResultHandle<StarkPoint>)
        requires
            old(fabric).wf(),
            old(fabric)@.has_room(1),
        ensures
            final(fabric).wf(),
            r.id == old(fabric)@.next_result_id,
            final(fabric)@ == old(fabric)@.with_gate(seq![self.id], GateFunction::MulConstant(Constant::Scalar(rhs))),
    {
        fabric.unary_gate(self.id, GateFunction::MulConstant(Constant::Scalar(rhs)))
    }

    /// Multiply a batch of points by a batch of scalars, element by element
    pub fn batch_mul<S: SharedValueSource>(
        fabric: &mut MpcFabric<S>,
        a: &[ResultHandle<Scalar>],
        b: &[ResultHandle<StarkPoint>],
    ) -> (r: Vec<ResultHandle<StarkPoint>>)
        requires
            old(fabric).wf(),
            a@.len() == b@.len(),
            old(fabric)@.has_room(a@.len() as int),
        ensures
            final(fabric).wf(),
            r@.len() == a@.len(),
            ids_of(r@) == crate::fabric::result::range_ids(
                old(fabric)@.next_result_id,
                a@.len() as int,
            ),
            a@.len() > 0 ==> final(fabric)@.advanced(old(fabric)@, a@.len() as int, 1, 0),
            final(fabric)@ == (if a@.len() == 0 {
                old(fabric)@
            } else {
                old(fabric)@.with_batch_gate(
                    ids_of(a@) + ids_of(b@),
                    a@.len() as int,
                    BatchGateFunction::BatchMul,
                )
            }),
    {
        if a.len() == 0 {
            let r: Vec<ResultHandle<StarkPoint>> = Vec::new();
            assert(ids_of(r@) =~= crate::fabric::result::range_ids(
                old(fabric)@.next_result_id,
                0,
            ));
            return r;
        }
        fabric.batch_gate(
            crate::fabric::result::collect_ids(a),
            crate::fabric::result::collect_ids(b),
            a.len(),
            BatchGateFunction::BatchMul,
        )
    }
}

} // verus!
