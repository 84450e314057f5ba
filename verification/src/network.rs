//! The messages that the two parties exchange, and their encoding on the wire.
//!
//! A message travels as the eight big-endian bytes of the result that it
//! fulfils, followed by its payload: one byte that tells the kind of the
//! payload, then the value. A scalar takes 32 bytes and a point 96; byte
//! strings and batches are preceded by the eight big-endian bytes of their
//! length.

use vstd::prelude::*;

use crate::algebra::scalar::be_encoding;
use crate::algebra::scalar::be_value;
use crate::algebra::scalar::lemma_be_encoding_value;
use crate::algebra::scalar::scalar_modulus;
use crate::algebra::scalar::lemma_be_value_bound;
use crate::algebra::scalar::pow256;
use crate::algebra::scalar::scalar_encoding;
use crate::algebra::scalar::Scalar;
use crate::algebra::stark_curve::StarkPoint;
use crate::error::MpcError;
use crate::fabric::result::ResultId;
use crate::fabric::result::Value;

verus! {

/// The identifier of a party
pub type PartyId = u64;

/// The payload of a message, one variant for each kind of result value
#[derive(Debug, PartialEq, Eq)]
pub enum NetworkPayload {
    /// A byte value
    Bytes(Vec<u8>),
    /// A scalar value
    Scalar(Scalar),
    /// A batch of scalars
    ScalarBatch(Vec<Scalar>),
    /// A point on the curve
    Point(StarkPoint),
    /// A batch of points on the curve
    PointBatch(Vec<StarkPoint>),
}

impl View for NetworkPayload {
    type V = Value;

    open spec fn view(&self) -> Value {
        match self {
            NetworkPayload::Bytes(bytes) => Value::Bytes(bytes@),
            NetworkPayload::Scalar(scalar) => Value::Scalar(*scalar),
            NetworkPayload::ScalarBatch(scalars) => Value::ScalarBatch(scalars@),
            NetworkPayload::Point(point) => Value::Point(*point),
            NetworkPayload::PointBatch(points) => Value::PointBatch(points@),
        }
    }
}

/// A message to the peer: a payload, tagged with the result that the payload
/// fulfils on the peer's side
#[derive(Debug, PartialEq, Eq)]
pub struct NetworkOutbound {
    /// The result that the payload fulfils
    pub result_id: ResultId,
    /// The value sent
    pub payload: NetworkPayload,
}

/// The mathematical content of a message
pub struct OutboundView {
    /// The result that the payload fulfils
    pub result_id: ResultId,
    /// The value sent
    pub payload: Value,
}

impl View for NetworkOutbound {
    type V = OutboundView;

    open spec fn view(&self) -> OutboundView {
        OutboundView { result_id: self.result_id, payload: self.payload@ }
    }
}

/// The tag of a payload of bytes
pub const TAG_BYTES: u8 = 0;

/// The tag of a scalar payload
pub const TAG_SCALAR: u8 = 1;

/// The tag of a payload that is a batch of scalars
pub const TAG_SCALAR_BATCH: u8 = 2;

/// The tag of a point payload
pub const TAG_POINT: u8 = 3;

/// The tag of a payload that is a batch of points
pub const TAG_POINT_BATCH: u8 = 4;

/// The eight big-endian bytes of a number
pub open spec fn length_encoding(value: nat) -> Seq<u8> {
    be_encoding(value, 8)
}

/// The encodings of a list of scalars, one after the other
pub open spec fn scalars_encoding(scalars: Seq<Scalar>) -> Seq<u8>
    decreases scalars.len(),
{
    if scalars.len() == 0 {
        Seq::empty()
    } else {
        scalars_encoding(scalars.drop_last()) + scalar_encoding(scalars.last()@)
    }
}

/// The encodings of a list of points, one after the other
pub open spec fn points_encoding(points: Seq<StarkPoint>) -> Seq<u8>
    decreases points.len(),
{
    if points.len() == 0 {
        Seq::empty()
    } else {
        points_encoding(points.drop_last()) + points.last().encoding()
    }
}

/// The encoding of a payload: its tag, then its value
pub open spec fn payload_encoding(payload: Value) -> Seq<u8> {
    match payload {
        Value::Bytes(bytes) => seq![TAG_BYTES] + length_encoding(bytes.len()) + bytes,
        Value::Scalar(scalar) => seq![TAG_SCALAR] + scalar_encoding(scalar@),
        Value::ScalarBatch(scalars) => seq![TAG_SCALAR_BATCH] + length_encoding(scalars.len())
            + scalars_encoding(scalars),
        Value::Point(point) => seq![TAG_POINT] + point.encoding(),
        Value::PointBatch(points) => seq![TAG_POINT_BATCH] + length_encoding(points.len())
            + points_encoding(points),
    }
}

/// The encoding of a message: the result that it fulfils, then its payload
pub open spec fn message_encoding(message: OutboundView) -> Seq<u8> {
    length_encoding(message.result_id as nat) + payload_encoding(message.payload)
}

/// The scalars that a byte string stands for: one for every 32 bytes, each
/// in its canonical encoding
pub open spec fn scalars_decoding(bytes: Seq<u8>) -> Option<Seq<Scalar>>
    decreases bytes.len(),
{
    if bytes.len() == 0 {
        Some(Seq::empty())
    } else if bytes.len() < 32 {
        None
    } else {
        match (
            scalars_decoding(bytes.subrange(0, bytes.len() - 32)),
            Scalar::decoding(bytes.subrange(bytes.len() - 32, bytes.len() as int)),
        ) {
            (Some(scalars), Some(scalar)) => Some(scalars.push(scalar)),
            _ => None,
        }
    }
}

/// The points that a byte string stands for: one for every 96 bytes, each in
/// its normalized encoding
pub open spec fn points_decoding(bytes: Seq<u8>) -> Option<Seq<StarkPoint>>
    decreases bytes.len(),
{
    if bytes.len() == 0 {
        Some(Seq::empty())
    } else if bytes.len() < 96 {
        None
    } else {
        match (
            points_decoding(bytes.subrange(0, bytes.len() - 96)),
            StarkPoint::decoding(bytes.subrange(bytes.len() - 96, bytes.len() as int)),
        ) {
            (Some(points), Some(point)) => Some(points.push(point)),
            _ => None,
        }
    }
}

/// The payload that a byte string stands for, if it stands for one
pub open spec fn payload_decoding(bytes: Seq<u8>) -> Option<Value> {
    if bytes.len() == 0 {
        None
    } else if bytes[0] == TAG_BYTES {
        if bytes.len() >= 9 && be_value(bytes.subrange(1, 9)) == bytes.len() - 9 {
            Some(Value::Bytes(bytes.skip(9)))
        } else {
            None
        }
    } else if bytes[0] == TAG_SCALAR {
        match Scalar::decoding(bytes.skip(1)) {
            Some(scalar) => Some(Value::Scalar(scalar)),
            None => None,
        }
    } else if bytes[0] == TAG_SCALAR_BATCH {
        if bytes.len() >= 9 && be_value(bytes.subrange(1, 9)) * 32 == bytes.len() - 9 {
            match scalars_decoding(bytes.skip(9)) {
                Some(scalars) => Some(Value::ScalarBatch(scalars)),
                None => None,
            }
        } else {
            None
        }
    } else if bytes[0] == TAG_POINT {
        match StarkPoint::decoding(bytes.skip(1)) {
            Some(point) => Some(Value::Point(point)),
            None => None,
        }
    } else if bytes[0] == TAG_POINT_BATCH {
        if bytes.len() >= 9 && be_value(bytes.subrange(1, 9)) * 96 == bytes.len() - 9 {
            match points_decoding(bytes.skip(9)) {
                Some(points) => Some(Value::PointBatch(points)),
                None => None,
            }
        } else {
            None
        }
    } else {
        None
    }
}

/// The message that a byte string stands for, if it stands for one
pub open spec fn message_decoding(bytes: Seq<u8>) -> Option<OutboundView> {
    if bytes.len() < 8 || be_value(bytes.subrange(0, 8)) > usize::MAX {
        None
    } else {
        match payload_decoding(bytes.skip(8)) {
            Some(payload) => Some(
                OutboundView { result_id: be_value(bytes.subrange(0, 8)) as usize, payload },
            ),
            None => None,
        }
    }
}

/// Append the eight big-endian bytes of a number to a byte string
fn push_length(out: &mut Vec<u8>, value: u64)
    ensures
        final(out)@ == old(out)@ + length_encoding(value as nat),
{
    let mut divisor: u64 = 0x1_00_0000_0000_0000u64;
    let mut i: usize = 0;
    proof {
        reveal_with_fuel(pow256, 8);
        assert(pow256(7) == 0x1_00_0000_0000_0000nat);
    }
    while i < 8
        invariant
            i <= 8,
            i < 8 ==> divisor as nat == pow256((7 - i) as nat),
            i < 8 ==> divisor > 0,
            out@.len() == old(out)@.len() + i,
            forall|j: int| 0 <= j < old(out)@.len() ==> out@[j] == old(out)@[j],
            forall|j: int|
                0 <= j < i ==> out@[old(out)@.len() + j] == length_encoding(value as nat)[j],
        decreases 8 - i,
    {
        let digit: u64 = (value / divisor) % 256;
        out.push(digit as u8);
        i += 1;
        if i < 8 {
            proof {
                assert(pow256((8 - i) as nat) == 256 * pow256((7 - i) as nat));
            }
            divisor = divisor / 256;
        }
    }
    assert(out@ =~= old(out)@ + length_encoding(value as nat));
}

/// The number that eight big-endian bytes, starting at `start`, stand for
fn read_length(bytes: &[u8], start: usize) -> (r: u64)
    requires
        start + 8 <= bytes@.len(),
    ensures
        r as nat == be_value(bytes@.subrange(start as int, start + 8)),
{
    let mut acc: u64 = 0;
    let mut i: usize = 0;
    let len = bytes.len();
    proof {
        assert(bytes@.subrange(start as int, start as int) =~= Seq::<u8>::empty());
    }
    while i < 8
        invariant
            i <= 8,
            len == bytes@.len(),
            start + 8 <= len,
            acc as nat == be_value(bytes@.subrange(start as int, start + i)),
        decreases 8 - i,
    {
        let ghost prefix = bytes@.subrange(start as int, start + i);
        proof {
            lemma_be_value_bound(prefix);
            reveal_with_fuel(pow256, 9);
            crate::algebra::scalar::lemma_pow256_monotone(i as nat, 7);
            assert(pow256(7) == 0x1_00_0000_0000_0000nat);
            let next = bytes@.subrange(start as int, start + i + 1);
            assert(next.drop_last() =~= prefix);
            assert(next.last() == bytes@[start + i]);
        }
        acc = acc * 256 + bytes[start + i] as u64;
        i += 1;
    }
    acc
}

/// The encoding of a payload
pub fn encode_payload(payload: &NetworkPayload) -> (r: Vec<u8>)
    ensures
        r@ == payload_encoding(payload@),
        travels(payload@),
        payload_decoding(r@) == Some(payload@),
{
    let mut out: Vec<u8> = Vec::new();
    match payload {
        NetworkPayload::Bytes(bytes) => {
            out.push(TAG_BYTES);
            push_length(&mut out, bytes.len() as u64);
            let mut i: usize = 0;
            let ghost head = out@;
            while i < bytes.len()
                invariant
                    i <= bytes@.len(),
                    out@ == head + bytes@.subrange(0, i as int),
                decreases bytes@.len() - i,
            {
                out.push(bytes[i]);
                assert(out@ =~= head + bytes@.subrange(0, i + 1));
                i += 1;
            }
            assert(bytes@.subrange(0, i as int) =~= bytes@);
            assert(head =~= seq![TAG_BYTES] + length_encoding(bytes@.len()));
        },
        NetworkPayload::Scalar(scalar) => {
            scalar.representative_is_canonical();
            out.push(TAG_SCALAR);
            let mut encoded = scalar.to_bytes_be();
            out.append(&mut encoded);
            assert(out@ =~= seq![TAG_SCALAR] + scalar_encoding(scalar@));
        },
        NetworkPayload::ScalarBatch(scalars) => {
            out.push(TAG_SCALAR_BATCH);
            push_length(&mut out, scalars.len() as u64);
            let mut i: usize = 0;
            let ghost head = out@;
            proof {
                assert(scalars@.subrange(0, 0) =~= Seq::<Scalar>::empty());
            }
            while i < scalars.len()
                invariant
                    i <= scalars@.len(),
                    out@ == head + scalars_encoding(scalars@.subrange(0, i as int)),
                    forall|j: int| 0 <= j < i ==> (#[trigger] scalars@[j])@ < scalar_modulus(),
                decreases scalars@.len() - i,
            {
                scalars[i].representative_is_canonical();
                let mut encoded = scalars[i].to_bytes_be();
                out.append(&mut encoded);
                proof {
                    let next = scalars@.subrange(0, i + 1);
                    assert(next.drop_last() =~= scalars@.subrange(0, i as int));
                    assert(next.last() == scalars@[i as int]);
                    assert(out@ =~= head + scalars_encoding(next));
                }
                i += 1;
            }
            assert(scalars@.subrange(0, i as int) =~= scalars@);
            assert(head =~= seq![TAG_SCALAR_BATCH] + length_encoding(scalars@.len()));
        },
        NetworkPayload::Point(point) => {
            point.encoding_round_trips();
            out.push(TAG_POINT);
            let mut encoded = point.to_bytes();
            out.append(&mut encoded);
            assert(out@ =~= seq![TAG_POINT] + point.encoding());
        },
        NetworkPayload::PointBatch(points) => {
            out.push(TAG_POINT_BATCH);
            push_length(&mut out, points.len() as u64);
            let mut i: usize = 0;
            let ghost head = out@;
            proof {
                assert(points@.subrange(0, 0) =~= Seq::<StarkPoint>::empty());
            }
            while i < points.len()
                invariant
                    i <= points@.len(),
                    out@ == head + points_encoding(points@.subrange(0, i as int)),
                    forall|j: int|
                        0 <= j < i ==> StarkPoint::decoding((#[trigger] points@[j]).encoding())
                            == Some(points@[j]),
                decreases points@.len() - i,
            {
                points[i].encoding_round_trips();
                let mut encoded = points[i].to_bytes();
                out.append(&mut encoded);
                proof {
                    let next = points@.subrange(0, i + 1);
                    assert(next.drop_last() =~= points@.subrange(0, i as int));
                    assert(next.last() == points@[i as int]);
                    assert(out@ =~= head + points_encoding(next));
                }
                i += 1;
            }
            assert(points@.subrange(0, i as int) =~= points@);
            assert(head =~= seq![TAG_POINT_BATCH] + length_encoding(points@.len()));
        },
    }
    proof {
        lemma_payload_round_trip(payload@);
    }
    out
}

/// The encoding of a message; decoding gives the message back
pub fn encode_message(message: &NetworkOutbound) -> (r: Vec<u8>)
    ensures
        r@ == message_encoding(message@),
        message_decoding(r@) == Some(message@),
{
    let mut out: Vec<u8> = Vec::new();
    push_length(&mut out, message.result_id as u64);
    let mut payload = encode_payload(&message.payload);
    out.append(&mut payload);
    assert(out@ =~= message_encoding(message@));
    proof {
        lemma_message_round_trip(message@);
    }
    out
}

/// The scalars that a byte string stands for
fn decode_scalars(bytes: &[u8], count: usize) -> (r: Option<Vec<Scalar>>)
    requires
        bytes@.len() == count * 32,
    ensures
        r is Some <==> scalars_decoding(bytes@) is Some,
        r matches Some(scalars) ==> scalars_decoding(bytes@) == Some(scalars@),
{
    let mut scalars: Vec<Scalar> = Vec::new();
    let mut i: usize = 0;
    proof {
        assert(bytes@.subrange(0, 0) =~= Seq::<u8>::empty());
    }
    let len = bytes.len();
    while i < count
        invariant
            i <= count,
            len == count * 32,
            bytes@.len() == count * 32,
            scalars_decoding(bytes@.subrange(0, 32 * i)) == Some(scalars@),
        decreases count - i,
    {
        let chunk = vstd::slice::slice_subrange(bytes, 32 * i, 32 * i + 32);
        proof {
            let next = bytes@.subrange(0, 32 * i + 32);
            assert(next.subrange(0, next.len() - 32) =~= bytes@.subrange(0, 32 * i));
            assert(next.subrange(next.len() - 32, next.len() as int) =~= chunk@);
        }
        match Scalar::from_bytes_be(chunk) {
            Some(scalar) => {
                scalars.push(scalar);
            },
            None => {
                proof {
                    lemma_scalars_decoding_fails(bytes@, 32 * i + 32);
                }
                return None;
            },
        }
        i += 1;
    }
    proof {
        assert(bytes@.subrange(0, 32 * i) =~= bytes@);
    }
    Some(scalars)
}

/// A byte string of which a prefix stands for no scalars stands for none
proof fn lemma_scalars_decoding_fails(bytes: Seq<u8>, failed: int)
    requires
        0 <= failed <= bytes.len(),
        (bytes.len() - failed) % 32 == 0,
        scalars_decoding(bytes.subrange(0, failed)) is None,
    ensures
        scalars_decoding(bytes) is None,
    decreases bytes.len() - failed,
{
    if failed < bytes.len() {
        let shorter = bytes.subrange(0, bytes.len() - 32);
        assert(shorter.subrange(0, failed) =~= bytes.subrange(0, failed));
        lemma_scalars_decoding_fails(shorter, failed);
    } else {
        assert(bytes.subrange(0, failed) =~= bytes);
    }
}

/// The points that a byte string stands for
fn decode_points(bytes: &[u8], count: usize) -> (r: Option<Vec<StarkPoint>>)
    requires
        bytes@.len() == count * 96,
    ensures
        r is Some <==> points_decoding(bytes@) is Some,
        r matches Some(points) ==> points_decoding(bytes@) == Some(points@),
{
    let mut points: Vec<StarkPoint> = Vec::new();
    let mut i: usize = 0;
    proof {
        assert(bytes@.subrange(0, 0) =~= Seq::<u8>::empty());
    }
    let len = bytes.len();
    while i < count
        invariant
            i <= count,
            len == count * 96,
            bytes@.len() == count * 96,
            points_decoding(bytes@.subrange(0, 96 * i)) == Some(points@),
        decreases count - i,
    {
        let chunk = vstd::slice::slice_subrange(bytes, 96 * i, 96 * i + 96);
        proof {
            let next = bytes@.subrange(0, 96 * i + 96);
            assert(next.subrange(0, next.len() - 96) =~= bytes@.subrange(0, 96 * i));
            assert(next.subrange(next.len() - 96, next.len() as int) =~= chunk@);
        }
        match StarkPoint::from_bytes(chunk) {
            Some(point) => {
                points.push(point);
            },
            None => {
                proof {
                    lemma_points_decoding_fails(bytes@, 96 * i + 96);
                }
                return None;
            },
        }
        i += 1;
    }
    proof {
        assert(bytes@.subrange(0, 96 * i) =~= bytes@);
    }
    Some(points)
}

/// A byte string of which a prefix stands for no points stands for none
proof fn lemma_points_decoding_fails(bytes: Seq<u8>, failed: int)
    requires
        0 <= failed <= bytes.len(),
        (bytes.len() - failed) % 96 == 0,
        points_decoding(bytes.subrange(0, failed)) is None,
    ensures
        points_decoding(bytes) is None,
    decreases bytes.len() - failed,
{
    if failed < bytes.len() {
        let shorter = bytes.subrange(0, bytes.len() - 96);
        assert(shorter.subrange(0, failed) =~= bytes.subrange(0, failed));
        lemma_points_decoding_fails(shorter, failed);
    } else {
        assert(bytes.subrange(0, failed) =~= bytes);
    }
}

/// The payload that a byte string stands for, if it stands for one
pub fn decode_payload(bytes: &[u8]) -> (r: Option<NetworkPayload>)
    ensures
        r is Some <==> payload_decoding(bytes@) is Some,
        r matches Some(payload) ==> payload_decoding(bytes@) == Some(payload@),
{
    let len = bytes.len();
    if len == 0 {
        return None;
    }
    let tag = bytes[0];
    if tag == TAG_BYTES {
        if len < 9 {
            return None;
        }
        let count = read_length(bytes, 1);
        if count != (len - 9) as u64 {
            return None;
        }
        let body = vstd::slice::slice_subrange(bytes, 9, len);
        let mut out: Vec<u8> = Vec::new();
        let mut i: usize = 0;
        while i < body.len()
            invariant
                i <= body@.len(),
                out@ == body@.subrange(0, i as int),
            decreases body@.len() - i,
        {
            out.push(body[i]);
            assert(out@ =~= body@.subrange(0, i + 1));
            i += 1;
        }
        assert(out@ =~= bytes@.skip(9));
        Some(NetworkPayload::Bytes(out))
    } else if tag == TAG_SCALAR {
        let body = vstd::slice::slice_subrange(bytes, 1, len);
        assert(body@ =~= bytes@.skip(1));
        match Scalar::from_bytes_be(body) {
            Some(scalar) => Some(NetworkPayload::Scalar(scalar)),
            None => None,
        }
    } else if tag == TAG_SCALAR_BATCH {
        if len < 9 {
            return None;
        }
        let count = read_length(bytes, 1);
        if (len - 9) % 32 != 0 || count != ((len - 9) / 32) as u64 {
            return None;
        }
        let body = vstd::slice::slice_subrange(bytes, 9, len);
        assert(body@ =~= bytes@.skip(9));
        match decode_scalars(body, (len - 9) / 32) {
            Some(scalars) => Some(NetworkPayload::ScalarBatch(scalars)),
            None => None,
        }
    } else if tag == TAG_POINT {
        let body = vstd::slice::slice_subrange(bytes, 1, len);
        assert(body@ =~= bytes@.skip(1));
        match StarkPoint::from_bytes(body) {
            Some(point) => Some(NetworkPayload::Point(point)),
            None => None,
        }
    } else if tag == TAG_POINT_BATCH {
        if len < 9 {
            return None;
        }
        let count = read_length(bytes, 1);
        if (len - 9) % 96 != 0 || count != ((len - 9) / 96) as u64 {
            return None;
        }
        let body = vstd::slice::slice_subrange(bytes, 9, len);
        assert(body@ =~= bytes@.skip(9));
        match decode_points(body, (len - 9) / 96) {
            Some(points) => Some(NetworkPayload::PointBatch(points)),
            None => None,
        }
    } else {
        None
    }
}

/// The message that a byte string stands for, or a network error if it stands
/// for none
pub fn decode_message(bytes: &[u8]) -> (r: Result<NetworkOutbound, MpcError>)
    ensures
        match r {
            Ok(message) => message_decoding(bytes@) == Some(message@),
            Err(error) => error == MpcError::NetworkError && message_decoding(bytes@) is None,
        },
{
    let len = bytes.len();
    if len < 8 {
        return Err(MpcError::NetworkError);
    }
    let id = read_length(bytes, 0);
    if id > usize::MAX as u64 {
        return Err(MpcError::NetworkError);
    }
    let body = vstd::slice::slice_subrange(bytes, 8, len);
    assert(body@ =~= bytes@.skip(8));
    match decode_payload(body) {
        Some(payload) => Ok(NetworkOutbound { result_id: id as usize, payload }),
        None => Err(MpcError::NetworkError),
    }
}

/// Whether a value can travel: its scalars are canonical, its points are on
/// the curve and normalized, and its length fits into eight bytes
pub open spec fn travels(payload: Value) -> bool {
    match payload {
        Value::Bytes(bytes) => bytes.len() <= u64::MAX,
        Value::Scalar(scalar) => scalar@ < scalar_modulus(),
        Value::ScalarBatch(scalars) => scalars.len() <= u64::MAX && forall|i: int|
            0 <= i < scalars.len() ==> (#[trigger] scalars[i])@ < scalar_modulus(),
        Value::Point(point) => StarkPoint::decoding(point.encoding()) == Some(point),
        Value::PointBatch(points) => points.len() <= u64::MAX && forall|i: int|
            0 <= i < points.len() ==> StarkPoint::decoding((#[trigger] points[i]).encoding())
                == Some(points[i]),
    }
}

/// A canonical scalar is the one that its encoding stands for
pub proof fn lemma_scalar_round_trip(scalar: Scalar)
    requires
        scalar@ < scalar_modulus(),
    ensures
        Scalar::decoding(scalar_encoding(scalar@)) == Some(scalar),
{
    crate::algebra::scalar::lemma_pow256_limb();
    crate::algebra::scalar::lemma_pow256_add(16, 16);
    crate::algebra::scalar::lemma_modulus_bounds();
    assert(scalar_modulus() < pow256(32)) by (nonlinear_arith)
        requires
            pow256(32) == crate::algebra::scalar::limb_base() * crate::algebra::scalar::limb_base(),
            scalar_modulus() == (crate::algebra::scalar::MODULUS_HI as nat)
                * crate::algebra::scalar::limb_base() + (crate::algebra::scalar::MODULUS_LO as nat),
            crate::algebra::scalar::limb_base() == u128::MAX as nat + 1,
            crate::algebra::scalar::MODULUS_HI < u128::MAX,
            crate::algebra::scalar::MODULUS_LO <= u128::MAX,
    ;
    lemma_be_encoding_value(scalar@, 32);
    Scalar::lemma_of_nat_view(scalar);
}

/// A length that fits into eight bytes is the one that its encoding stands for
pub proof fn lemma_length_round_trip(value: nat)
    requires
        value <= u64::MAX,
    ensures
        be_value(length_encoding(value)) == value,
{
    reveal_with_fuel(pow256, 9);
    assert(pow256(8) == 0x1_0000_0000_0000_0000nat);
    lemma_be_encoding_value(value, 8);
}

/// Scalars that are canonical are the ones that their encodings stand for
pub proof fn lemma_scalars_round_trip(scalars: Seq<Scalar>)
    requires
        forall|i: int| 0 <= i < scalars.len() ==> (#[trigger] scalars[i])@ < scalar_modulus(),
    ensures
        scalars_encoding(scalars).len() == 32 * scalars.len(),
        scalars_decoding(scalars_encoding(scalars)) == Some(scalars),
    decreases scalars.len(),
{
    if scalars.len() > 0 {
        let rest = scalars.drop_last();
        lemma_scalars_round_trip(rest);
        lemma_scalar_round_trip(scalars.last());
        let encoded = scalars_encoding(scalars);
        assert(encoded.subrange(0, encoded.len() - 32) =~= scalars_encoding(rest));
        assert(encoded.subrange(encoded.len() - 32, encoded.len() as int) =~= scalar_encoding(
            scalars.last()@,
        ));
        assert(rest.push(scalars.last()) =~= scalars);
    }
}

/// Points that are the ones that their encodings stand for are, taken
/// together, the ones that their encodings stand for
pub proof fn lemma_points_round_trip(points: Seq<StarkPoint>)
    requires
        forall|i: int|
            0 <= i < points.len() ==> StarkPoint::decoding((#[trigger] points[i]).encoding())
                == Some(points[i]),
    ensures
        points_encoding(points).len() == 96 * points.len(),
        points_decoding(points_encoding(points)) == Some(points),
    decreases points.len(),
{
    if points.len() > 0 {
        let rest = points.drop_last();
        lemma_points_round_trip(rest);
        let encoded = points_encoding(points);
        assert(points.last().encoding().len() == 96);
        assert(encoded.subrange(0, encoded.len() - 96) =~= points_encoding(rest));
        assert(encoded.subrange(encoded.len() - 96, encoded.len() as int)
            =~= points.last().encoding());
        assert(rest.push(points.last()) =~= points);
    }
}

/// Decoding undoes encoding: a message whose payload can travel is the one
/// that its encoding stands for
pub proof fn lemma_message_round_trip(message: OutboundView)
    requires
        travels(message.payload),
    ensures
        message_decoding(message_encoding(message)) == Some(message),
{
    let encoded = message_encoding(message);
    let head = length_encoding(message.result_id as nat);
    let body = payload_encoding(message.payload);
    lemma_length_round_trip(message.result_id as nat);
    lemma_payload_round_trip(message.payload);
    assert(encoded.subrange(0, 8) =~= head);
    assert(encoded.skip(8) =~= body);
}

/// Decoding undoes encoding: a payload that can travel is the one that its
/// encoding stands for
pub proof fn lemma_payload_round_trip(payload: Value)
    requires
        travels(payload),
    ensures
        payload_decoding(payload_encoding(payload)) == Some(payload),
{
    let body = payload_encoding(payload);
    match payload {
        Value::Bytes(bytes) => {
            lemma_length_round_trip(bytes.len());
            assert(body.subrange(1, 9) =~= length_encoding(bytes.len()));
            assert(body.skip(9) =~= bytes);
        },
        Value::Scalar(scalar) => {
            lemma_scalar_round_trip(scalar);
            assert(body.skip(1) =~= scalar_encoding(scalar@));
        },
        Value::ScalarBatch(scalars) => {
            lemma_length_round_trip(scalars.len());
            lemma_scalars_round_trip(scalars);
            assert(body.subrange(1, 9) =~= length_encoding(scalars.len()));
            assert(body.skip(9) =~= scalars_encoding(scalars));
        },
        Value::Point(point) => {
            assert(body.skip(1) =~= point.encoding());
        },
        Value::PointBatch(points) => {
            lemma_length_round_trip(points.len());
            lemma_points_round_trip(points);
            assert(body.subrange(1, 9) =~= length_encoding(points.len()));
            assert(body.skip(9) =~= points_encoding(points));
        },
    }
}

} // verus!
