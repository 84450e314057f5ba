//! The values that flow along the edges of the computation graph, and the
//! handles by which a circuit names a value before it has been computed

use core::marker::PhantomData;
use vstd::prelude::*;

use crate::algebra::scalar::Scalar;
use crate::algebra::stark_curve::StarkPoint;
use crate::network::NetworkPayload;

verus! {

/// An identifier for a result
pub type ResultId = usize;

/// The mathematical content of a result value
pub enum Value {
    /// A byte value
    Bytes(Seq<u8>),
    /// A scalar value
    Scalar(Scalar),
    /// A batch of scalars
    ScalarBatch(Seq<Scalar>),
    /// A point on the curve
    Point(StarkPoint),
    /// A batch of points on the curve
    PointBatch(Seq<StarkPoint>),
}

/// The value of a result
#[derive(Debug, PartialEq, Eq)]
pub enum ResultValue {
    /// A byte value
    Bytes(Vec<u8>),
    /// A scalar value
    Scalar(Scalar),
    /// A batch of scalars
    ScalarBatch(Vec<Scalar>),
    /// A point on the curve
    Point(StarkPoint),
    /// A batch of points on the curve
    PointBatch(Vec<StarkPoint>),
}

impl View for ResultValue {
    type V = Value;

    open spec fn view(&self) -> Value {
        match self {
            ResultValue::Bytes(bytes) => Value::Bytes(bytes@),
            ResultValue::Scalar(scalar) => Value::Scalar(*scalar),
            ResultValue::ScalarBatch(scalars) => Value::ScalarBatch(scalars@),
            ResultValue::Point(point) => Value::Point(*point),
            ResultValue::PointBatch(points) => Value::PointBatch(points@),
        }
    }
}

impl Clone for ResultValue {
    fn clone(&self) -> (r: Self)
        ensures
            r@ == self@,
    {
        match self {
            ResultValue::Bytes(bytes) => ResultValue::Bytes(copy_bytes(bytes)),
            ResultValue::Scalar(scalar) => ResultValue::Scalar(*scalar),
            ResultValue::ScalarBatch(scalars) => ResultValue::ScalarBatch(copy_scalars(scalars)),
            ResultValue::Point(point) => ResultValue::Point(*point),
            ResultValue::PointBatch(points) => ResultValue::PointBatch(copy_points(points)),
        }
    }
}

/// A copy of a byte string
pub fn copy_bytes(bytes: &Vec<u8>) -> (r: Vec<u8>)
    ensures
        r@ == bytes@,
{
    let mut out: Vec<u8> = Vec::with_capacity(bytes.len());
    let mut i: usize = 0;
    while i < bytes.len()
        invariant
            i <= bytes@.len(),
            out@ == bytes@.subrange(0, i as int),
        decreases bytes@.len() - i,
    {
        out.push(bytes[i]);
        assert(out@ =~= bytes@.subrange(0, i + 1));
        i += 1;
    }
    assert(out@ =~= bytes@);
    out
}

/// A copy of a batch of scalars
pub fn copy_scalars(scalars: &Vec<Scalar>) -> (r: Vec<Scalar>)
    ensures
        r@ == scalars@,
{
    let mut out: Vec<Scalar> = Vec::with_capacity(scalars.len());
    let mut i: usize = 0;
    while i < scalars.len()
        invariant
            i <= scalars@.len(),
            out@ == scalars@.subrange(0, i as int),
        decreases scalars@.len() - i,
    {
        out.push(scalars[i]);
        assert(out@ =~= scalars@.subrange(0, i + 1));
        i += 1;
    }
    assert(out@ =~= scalars@);
    out
}

/// A copy of a batch of points
pub fn copy_points(points: &Vec<StarkPoint>) -> (r: Vec<StarkPoint>)
    ensures
        r@ == points@,
{
    let mut out: Vec<StarkPoint> = Vec::with_capacity(points.len());
    let mut i: usize = 0;
    while i < points.len()
        invariant
            i <= points@.len(),
            out@ == points@.subrange(0, i as int),
        decreases points@.len() - i,
    {
        out.push(points[i]);
        assert(out@ =~= points@.subrange(0, i + 1));
        i += 1;
    }
    assert(out@ =~= points@);
    out
}

impl Value {
    /// The scalar that a value holds, if it holds one
    pub open spec fn scalar(self) -> Option<Scalar> {
        match self {
            Value::Scalar(scalar) => Some(scalar),
            _ => None,
        }
    }

    /// The point that a value holds, if it holds one
    pub open spec fn point(self) -> Option<StarkPoint> {
        match self {
            Value::Point(point) => Some(point),
            _ => None,
        }
    }
}

impl From<NetworkPayload> for ResultValue {
    fn from(value: NetworkPayload) -> (r: Self) {
        match value {
            NetworkPayload::Bytes(bytes) => ResultValue::Bytes(bytes),
            NetworkPayload::Scalar(scalar) => ResultValue::Scalar(scalar),
            NetworkPayload::ScalarBatch(scalars) => ResultValue::ScalarBatch(scalars),
            NetworkPayload::Point(point) => ResultValue::Point(point),
            NetworkPayload::PointBatch(points) => ResultValue::PointBatch(points),
        }
    }
}

impl vstd::std_specs::convert::FromSpecImpl<NetworkPayload> for ResultValue {
    open spec fn obeys_from_spec() -> bool {
        true
    }

    open spec fn from_spec(value: NetworkPayload) -> Self {
        match value {
            NetworkPayload::Bytes(bytes) => ResultValue::Bytes(bytes),
            NetworkPayload::Scalar(scalar) => ResultValue::Scalar(scalar),
            NetworkPayload::ScalarBatch(scalars) => ResultValue::ScalarBatch(scalars),
            NetworkPayload::Point(point) => ResultValue::Point(point),
            NetworkPayload::PointBatch(points) => ResultValue::PointBatch(points),
        }
    }
}

impl From<ResultValue> for NetworkPayload {
    fn from(value: ResultValue) -> (r: Self) {
        match value {
            ResultValue::Bytes(bytes) => NetworkPayload::Bytes(bytes),
            ResultValue::Scalar(scalar) => NetworkPayload::Scalar(scalar),
            ResultValue::ScalarBatch(scalars) => NetworkPayload::ScalarBatch(scalars),
            ResultValue::Point(point) => NetworkPayload::Point(point),
            ResultValue::PointBatch(points) => NetworkPayload::PointBatch(points),
        }
    }
}

impl vstd::std_specs::convert::FromSpecImpl<ResultValue> for NetworkPayload {
    open spec fn obeys_from_spec() -> bool {
        true
    }

    open spec fn from_spec(value: ResultValue) -> Self {
        match value {
            ResultValue::Bytes(bytes) => NetworkPayload::Bytes(bytes),
            ResultValue::Scalar(scalar) => NetworkPayload::Scalar(scalar),
            ResultValue::ScalarBatch(scalars) => NetworkPayload::ScalarBatch(scalars),
            ResultValue::Point(point) => NetworkPayload::Point(point),
            ResultValue::PointBatch(points) => NetworkPayload::PointBatch(points),
        }
    }
}

impl ResultValue {
    /// The value as it travels to the peer
    pub fn into_payload(self) -> (r: NetworkPayload)
        ensures
            r@ == self@,
    {
        match self {
            ResultValue::Bytes(bytes) => NetworkPayload::Bytes(bytes),
            ResultValue::Scalar(scalar) => NetworkPayload::Scalar(scalar),
            ResultValue::ScalarBatch(scalars) => NetworkPayload::ScalarBatch(scalars),
            ResultValue::Point(point) => NetworkPayload::Point(point),
            ResultValue::PointBatch(points) => NetworkPayload::PointBatch(points),
        }
    }

    /// The value that arrived from the peer
    pub fn from_payload(payload: NetworkPayload) -> (r: ResultValue)
        ensures
            r@ == payload@,
    {
        match payload {
            NetworkPayload::Bytes(bytes) => ResultValue::Bytes(bytes),
            NetworkPayload::Scalar(scalar) => ResultValue::Scalar(scalar),
            NetworkPayload::ScalarBatch(scalars) => ResultValue::ScalarBatch(scalars),
            NetworkPayload::Point(point) => ResultValue::Point(point),
            NetworkPayload::PointBatch(points) => ResultValue::PointBatch(points),
        }
    }

    /// The scalar that the value holds, if it holds one
    pub fn to_scalar(&self) -> (r: Option<Scalar>)
        ensures
            r == self@.scalar(),
    {
        match self {
            ResultValue::Scalar(scalar) => Some(*scalar),
            _ => None,
        }
    }

    /// The point that the value holds, if it holds one
    pub fn to_point(&self) -> (r: Option<StarkPoint>)
        ensures
            r == self@.point(),
    {
        match self {
            ResultValue::Point(point) => Some(*point),
            _ => None,
        }
    }

    /// The bytes of a value known to hold bytes
    pub fn into_bytes(self) -> (r: Vec<u8>)
        requires
            self is Bytes,
        ensures
            self@ == Value::Bytes(r@),
    {
        match self {
            ResultValue::Bytes(bytes) => bytes,
            _ => Vec::new(),
        }
    }

    /// The scalar of a value known to hold a scalar
    pub fn into_scalar(self) -> (r: Scalar)
        requires
            self is Scalar,
        ensures
            self@ == Value::Scalar(r),
    {
        match self {
            ResultValue::Scalar(scalar) => scalar,
            _ => Scalar::zero(),
        }
    }

    /// The scalars of a value known to hold a batch of scalars
    pub fn into_scalar_batch(self) -> (r: Vec<Scalar>)
        requires
            self is ScalarBatch,
        ensures
            self@ == Value::ScalarBatch(r@),
    {
        match self {
            ResultValue::ScalarBatch(scalars) => scalars,
            _ => Vec::new(),
        }
    }

    /// The point of a value known to hold a point
    pub fn into_point(self) -> (r: StarkPoint)
        requires
            self is Point,
        ensures
            self@ == Value::Point(r),
    {
        match self {
            ResultValue::Point(point) => point,
            _ => StarkPoint::identity(),
        }
    }

    /// The points of a value known to hold a batch of points
    pub fn into_point_batch(self) -> (r: Vec<StarkPoint>)
        requires
            self is PointBatch,
        ensures
            self@ == Value::PointBatch(r@),
    {
        match self {
            ResultValue::PointBatch(points) => points,
            _ => Vec::new(),
        }
    }
}

/// The result of an MPC operation
#[derive(Debug)]
pub struct OpResult {
    /// The ID of the result's output
    pub id: ResultId,
    /// The result's value
    pub value: ResultValue,
}

impl Clone for OpResult {
    fn clone(&self) -> (r: Self)
        ensures
            r.id == self.id,
            r.value@ == self.value@,
    {
        OpResult { id: self.id, value: self.value.clone() }
    }
}

/// A handle to the result of the execution of an MPC computation graph.
///
/// The handle names a slot in the fabric's result buffer; the slot is filled
/// once the graph has been evaluated up to that point, so a circuit can be
/// built ahead of its execution.
#[derive(Debug)]
pub struct ResultHandle<T> {
    /// The id of the result
    pub id: ResultId,
    /// A phantom for the type of the result
    pub phantom: PhantomData<T>,
}

impl<T> Clone for ResultHandle<T> {
    fn clone(&self) -> (r: Self)
        ensures
            r.id == self.id,
    {
        ResultHandle { id: self.id, phantom: PhantomData }
    }
}

impl<T> ResultHandle<T> {
    /// Constructor
    pub fn new(id: ResultId) -> (r: Self)
        ensures
            r.id == id,
    {
        ResultHandle { id, phantom: PhantomData }
    }

    /// Get the id of the result
    pub fn id(&self) -> (r: ResultId)
        ensures
            r == self.id,
    {
        self.id
    }

    /// Get the ids that this result represents; awaiting these ids is
    /// awaiting this result
    pub fn op_ids(&self) -> (r: Vec<ResultId>)
        ensures
            r@ == seq![self.id],
    {
        let mut ids = Vec::new();
        ids.push(self.id);
        ids
    }
}

/// The ids of a list of handles
pub open spec fn ids_of<T>(handles: Seq<ResultHandle<T>>) -> Seq<ResultId> {
    Seq::new(handles.len(), |i: int| handles[i].id)
}

/// Handles to consecutive results, counted from `first`
pub open spec fn handles_from<T>(handles: Seq<ResultHandle<T>>, first: int, count: int) -> bool {
    &&& handles.len() == count
    &&& forall|i: int| 0 <= i < count ==> (#[trigger] handles[i]).id == first + i
}

/// Consecutive result ids, counted from `first`
pub open spec fn range_ids(first: int, count: int) -> Seq<ResultId> {
    Seq::new(count as nat, |i: int| (first + i) as usize)
}

/// The scalars of a batch as values
pub open spec fn scalar_values(scalars: Seq<Scalar>) -> Seq<Value> {
    Seq::new(scalars.len(), |i: int| Value::Scalar(scalars[i]))
}

/// The points of a batch as values
pub open spec fn point_values(points: Seq<StarkPoint>) -> Seq<Value> {
    Seq::new(points.len(), |i: int| Value::Point(points[i]))
}

/// The ids of a list of handles
pub fn collect_ids<T>(handles: &[ResultHandle<T>]) -> (r: Vec<ResultId>)
    ensures
        r@ == ids_of(handles@),
{
    let mut ids: Vec<ResultId> = Vec::with_capacity(handles.len());
    let mut i: usize = 0;
    while i < handles.len()
        invariant
            i <= handles@.len(),
            ids@.len() == i,
            forall|j: int| 0 <= j < i ==> (#[trigger] ids@[j]) == handles@[j].id,
        decreases handles@.len() - i,
    {
        ids.push(handles[i].id);
        i += 1;
    }
    assert(ids@ =~= ids_of(handles@));
    ids
}

/// Handles to a list of results
pub fn handles_of<T>(ids: &Vec<ResultId>) -> (r: Vec<ResultHandle<T>>)
    ensures
        ids_of(r@) == ids@,
{
    let mut handles: Vec<ResultHandle<T>> = Vec::with_capacity(ids.len());
    let mut i: usize = 0;
    while i < ids.len()
        invariant
            i <= ids@.len(),
            handles@.len() == i,
            forall|j: int| 0 <= j < i ==> (#[trigger] handles@[j]).id == ids@[j],
        decreases ids@.len() - i,
    {
        handles.push(ResultHandle::new(ids[i]));
        i += 1;
    }
    assert(ids_of(handles@) =~= ids@);
    handles
}

/// Handles to `count` consecutive results, counted from `first`
pub fn handles_in_range<T>(first: ResultId, count: usize) -> (r: Vec<ResultHandle<T>>)
    requires
        first + count <= usize::MAX,
    ensures
        r@.len() == count,
        ids_of(r@) == range_ids(first as int, count as int),
{
    let mut handles: Vec<ResultHandle<T>> = Vec::with_capacity(count);
    let mut i: usize = 0;
    while i < count
        invariant
            i <= count,
            first + count <= usize::MAX,
            handles@.len() == i,
            forall|j: int| 0 <= j < i ==> (#[trigger] handles@[j]).id == first + j,
        decreases count - i,
    {
        handles.push(ResultHandle::new(first + i));
        i += 1;
    }
    assert(ids_of(handles@) =~= range_ids(first as int, count as int));
    handles
}

} // verus!
