//! The functions that a gate of the computation graph can apply to its
//! arguments. Each is a pure function from the values of a gate's arguments
//! to the values of its results; a function applied to arguments of the wrong
//! number or kind has no result.

use vstd::prelude::*;

use crate::algebra::scalar::scalar_encoding;
use crate::algebra::scalar::Scalar;
use crate::algebra::stark_curve::point_negation;
use crate::algebra::stark_curve::point_sum;
use crate::algebra::stark_curve::StarkPoint;
use crate::commitment::commitment_of;
use crate::commitment::hash_commit;
use crate::fabric::result::ResultValue;
use crate::fabric::result::Value;
use crate::network::NetworkPayload;
use crate::PARTY0;

verus! {

/// The number of results that make up an authenticated value: its share, its
/// MAC and its public modifier
pub const AUTHENTICATED_RESULT_LEN: usize = 3;

/// The mathematical content of a list of result values
pub open spec fn values_of(args: Seq<ResultValue>) -> Seq<Value> {
    Seq::new(args.len(), |i: int| args[i]@)
}

/// The mathematical content of a result value that may be missing
pub open spec fn value_of(value: Option<ResultValue>) -> Option<Value> {
    match value {
        Some(v) => Some(v@),
        None => None,
    }
}

impl Value {
    /// The sum of two scalars or of two points
    pub open spec fn sum(a: Value, b: Value) -> Option<Value> {
        match (a, b) {
            (Value::Scalar(x), Value::Scalar(y)) => Some(Value::Scalar(x.add_spec(y))),
            (Value::Point(x), Value::Point(y)) => Some(Value::Point(point_sum(x, y))),
            _ => None,
        }
    }

    /// The difference of two scalars or of two points
    pub open spec fn difference(a: Value, b: Value) -> Option<Value> {
        match (a, b) {
            (Value::Scalar(x), Value::Scalar(y)) => Some(Value::Scalar(x.sub_spec(y))),
            (Value::Point(x), Value::Point(y)) => Some(Value::Point(StarkPoint::difference(x, y))),
            _ => None,
        }
    }

    /// The negation of a scalar or of a point
    pub open spec fn negation(a: Value) -> Option<Value> {
        match a {
            Value::Scalar(x) => Some(Value::Scalar(x.neg_spec())),
            Value::Point(x) => Some(Value::Point(point_negation(x))),
            _ => None,
        }
    }

    /// The product of a scalar with a scalar or with a point
    pub open spec fn product(a: Value, b: Value) -> Option<Value> {
        match (a, b) {
            (Value::Scalar(x), Value::Scalar(y)) => Some(Value::Scalar(x.mul_spec(y))),
            (Value::Scalar(x), Value::Point(y)) => Some(Value::Point(StarkPoint::product(x@, y))),
            _ => None,
        }
    }

    /// The sum of a share and a public value as a party holds it: the first
    /// party adds the public value to its share, the other keeps its share,
    /// provided that the two are of one kind
    pub open spec fn sum_public(party_id: u64, share: Value, public: Value) -> Option<Value> {
        match Value::sum(share, public) {
            Some(total) => if party_id == PARTY0 {
                Some(total)
            } else {
                Some(share)
            },
            None => None,
        }
    }

    /// The difference of a share and a public value as a party holds it: the
    /// first party subtracts the public value from its share, the other keeps
    /// its share, provided that the two are of one kind
    pub open spec fn difference_public(party_id: u64, share: Value, public: Value) -> Option<
        Value,
    > {
        match Value::difference(share, public) {
            Some(total) => if party_id == PARTY0 {
                Some(total)
            } else {
                Some(share)
            },
            None => None,
        }
    }

    /// The zero of the group that a scalar or a point belongs to
    pub open spec fn zero_like(a: Value) -> Option<Value> {
        match a {
            Value::Scalar(_) => Some(Value::Scalar(Scalar::of_nat(0))),
            Value::Point(_) => Some(Value::Point(StarkPoint::identity_spec())),
            _ => None,
        }
    }

    /// The bytes that stand for a scalar or a point in a commitment
    pub open spec fn encoding(a: Value) -> Option<Seq<u8>> {
        match a {
            Value::Scalar(x) => Some(scalar_encoding(x@)),
            Value::Point(x) => Some(x.encoding()),
            _ => None,
        }
    }

    /// The value whose MAC share is checked when a shared value is opened:
    /// `key * (value + modifier) - mac`
    pub open spec fn mac_check(key: Value, value: Value, modifier: Value, mac: Value) -> Option<
        Value,
    > {
        match Value::sum(value, modifier) {
            Some(shifted) => match Value::product(key, shifted) {
                Some(expected) => Value::difference(expected, mac),
                None => None,
            },
            None => None,
        }
    }

    /// The verdict on a peer's opened MAC check share: one if the share opens
    /// the peer's commitment and cancels the local share, zero otherwise
    pub open spec fn mac_verdict(my: Value, peer: Value, blinder: Value, commitment: Value)
        -> Option<Value> {
        match (
            Value::sum(my, peer),
            Value::zero_like(my),
            Value::encoding(peer),
            blinder,
            commitment,
        ) {
            (
                Some(total),
                Some(zero),
                Some(bytes),
                Value::Scalar(blinder),
                Value::Scalar(commitment),
            ) => Some(
                Value::Scalar(
                    Scalar::of_nat(
                        if commitment == commitment_of(bytes, blinder) && total == zero {
                            1nat
                        } else {
                            0nat
                        },
                    ),
                ),
            ),
            _ => None,
        }
    }
}

/// The sum of two scalars or of two points
pub fn add_values(a: &ResultValue, b: &ResultValue) -> (r: Option<ResultValue>)
    ensures
        value_of(r) == Value::sum(a@, b@),
{
    match (a, b) {
        (ResultValue::Scalar(x), ResultValue::Scalar(y)) => Some(ResultValue::Scalar(x.add(y))),
        (ResultValue::Point(x), ResultValue::Point(y)) => Some(ResultValue::Point(x.add(y))),
        _ => None,
    }
}

/// The difference of two scalars or of two points
pub fn sub_values(a: &ResultValue, b: &ResultValue) -> (r: Option<ResultValue>)
    ensures
        value_of(r) == Value::difference(a@, b@),
{
    match (a, b) {
        (ResultValue::Scalar(x), ResultValue::Scalar(y)) => Some(ResultValue::Scalar(x.sub(y))),
        (ResultValue::Point(x), ResultValue::Point(y)) => Some(ResultValue::Point(x.sub(y))),
        _ => None,
    }
}

/// The negation of a scalar or of a point
pub fn neg_value(a: &ResultValue) -> (r: Option<ResultValue>)
    ensures
        value_of(r) == Value::negation(a@),
{
    match a {
        ResultValue::Scalar(x) => Some(ResultValue::Scalar(x.neg())),
        ResultValue::Point(x) => Some(ResultValue::Point(x.neg())),
        _ => None,
    }
}

/// The product of a scalar with a scalar or with a point
pub fn mul_values(a: &ResultValue, b: &ResultValue) -> (r: Option<ResultValue>)
    ensures
        value_of(r) == Value::product(a@, b@),
{
    match (a, b) {
        (ResultValue::Scalar(x), ResultValue::Scalar(y)) => Some(ResultValue::Scalar(x.mul(y))),
        (ResultValue::Scalar(x), ResultValue::Point(y)) => Some(ResultValue::Point(y.mul(x))),
        _ => None,
    }
}

/// The sum of a share and a public value as a party holds it
pub fn add_public(party_id: u64, share: &ResultValue, public: &ResultValue) -> (r: Option<
    ResultValue,
>)
    ensures
        value_of(r) == Value::sum_public(party_id, share@, public@),
{
    match add_values(share, public) {
        Some(total) => if party_id == PARTY0 {
            Some(total)
        } else {
            element_of_group(share)
        },
        None => None,
    }
}

/// The difference of a share and a public value as a party holds it
pub fn sub_public(party_id: u64, share: &ResultValue, public: &ResultValue) -> (r: Option<
    ResultValue,
>)
    ensures
        value_of(r) == Value::difference_public(party_id, share@, public@),
{
    match sub_values(share, public) {
        Some(total) => if party_id == PARTY0 {
            Some(total)
        } else {
            element_of_group(share)
        },
        None => None,
    }
}

/// The zero of the group that a scalar or a point belongs to
pub fn zero_like(a: &ResultValue) -> (r: Option<ResultValue>)
    ensures
        value_of(r) == Value::zero_like(a@),
{
    match a {
        ResultValue::Scalar(_) => Some(ResultValue::Scalar(Scalar::zero())),
        ResultValue::Point(_) => Some(ResultValue::Point(StarkPoint::identity())),
        _ => None,
    }
}

/// The bytes that stand for a scalar or a point in a commitment
pub fn encode_value(a: &ResultValue) -> (r: Option<Vec<u8>>)
    ensures
        r is Some <==> Value::encoding(a@) is Some,
        r matches Some(bytes) ==> Value::encoding(a@) == Some(bytes@),
{
    match a {
        ResultValue::Scalar(x) => Some(x.to_bytes_be()),
        ResultValue::Point(x) => Some(x.to_bytes()),
        _ => None,
    }
}

/// Whether two values, each a scalar or a point, are the same
pub fn values_equal(a: &ResultValue, b: &ResultValue) -> (r: bool)
    requires
        a is Scalar || a is Point,
        b is Scalar || b is Point,
    ensures
        r == (a@ == b@),
{
    match (a, b) {
        (ResultValue::Scalar(x), ResultValue::Scalar(y)) => *x == *y,
        (ResultValue::Point(x), ResultValue::Point(y)) => x.equals(y),
        _ => false,
    }
}

/// The MAC check share `key * (value + modifier) - mac`
pub fn mac_check(
    key: &ResultValue,
    value: &ResultValue,
    modifier: &ResultValue,
    mac: &ResultValue,
) -> (r: Option<ResultValue>)
    ensures
        value_of(r) == Value::mac_check(key@, value@, modifier@, mac@),
{
    match add_values(value, modifier) {
        Some(shifted) => match mul_values(key, &shifted) {
            Some(expected) => sub_values(&expected, mac),
            None => None,
        },
        None => None,
    }
}

/// Verify the MAC check on an authenticated opening: the peer's share must
/// open the commitment that the peer sent before, and the two shares must
/// cancel
pub fn verify_mac_check(
    my: &ResultValue,
    peer: &ResultValue,
    blinder: &ResultValue,
    commitment: &ResultValue,
) -> (r: Option<ResultValue>)
    ensures
        value_of(r) == Value::mac_verdict(my@, peer@, blinder@, commitment@),
{
    let total = add_values(my, peer);
    let zero = zero_like(my);
    let bytes = encode_value(peer);
    match (total, zero, bytes, blinder, commitment) {
        (
            Some(total),
            Some(zero),
            Some(bytes),
            ResultValue::Scalar(blinder),
            ResultValue::Scalar(commitment),
        ) => {
            let expected = hash_commit(bytes, blinder);
            let opens = *commitment == expected;
            let cancels = values_equal(&total, &zero);
            Some(ResultValue::Scalar(Scalar::from_bool(opens && cancels)))
        },
        _ => None,
    }
}

/// A public constant: a scalar or a curve point
#[derive(Clone, Copy, Debug, PartialEq, Eq)]
pub enum Constant {
    /// A scalar constant
    Scalar(Scalar),
    /// A point constant
    Point(StarkPoint),
}

impl View for Constant {
    type V = Value;

    open spec fn view(&self) -> Value {
        match self {
            Constant::Scalar(scalar) => Value::Scalar(*scalar),
            Constant::Point(point) => Value::Point(*point),
        }
    }
}

impl Constant {
    /// The constant as a result value
    pub fn to_value(&self) -> (r: ResultValue)
        ensures
            r@ == self@,
    {
        match self {
            Constant::Scalar(scalar) => ResultValue::Scalar(*scalar),
            Constant::Point(point) => ResultValue::Point(*point),
        }
    }
}

/// The function of a gate with a single result
#[derive(Clone, Copy, Debug, PartialEq, Eq)]
pub enum GateFunction {
    /// The sum of the two arguments
    Add,
    /// The first argument minus the second
    Sub,
    /// The product of the first argument, a scalar, and the second
    Mul,
    /// The negation of the argument
    Neg,
    /// The argument plus a constant
    AddConstant(Constant),
    /// The argument minus a constant
    SubConstant(Constant),
    /// The product of the argument and a constant, one of them a scalar
    MulConstant(Constant),
    /// The argument itself, a scalar or a point
    Pass,
    /// The sum of a share and a public value as the given party holds it: the
    /// first party adds the public value to its share, the other keeps its
    /// share as it is
    AddPublic {
        /// The party that evaluates this gate
        party_id: u64,
    },
    /// The difference of a share and a public value as the given party holds
    /// it: the first party subtracts the public value from its share, the
    /// other keeps its share as it is
    SubPublic {
        /// The party that evaluates this gate
        party_id: u64,
    },
    /// The MAC check share of the arguments: a key share, an opened value, a
    /// public modifier and a MAC share
    MacCheck,
    /// The hash commitment to the argument under a blinder
    Commit {
        /// The blinder of the commitment
        blinder: Scalar,
    },
    /// The verdict on the arguments: the local MAC check share, the peer's, the
    /// peer's blinder and the peer's commitment
    VerifyMacCheck,
}

impl GateFunction {
    /// The result of the function on the values of its arguments
    pub open spec fn eval_spec(self, args: Seq<Value>) -> Option<Value> {
        match self {
            GateFunction::Add => if args.len() == 2 {
                Value::sum(args[0], args[1])
            } else {
                None
            },
            GateFunction::Sub => if args.len() == 2 {
                Value::difference(args[0], args[1])
            } else {
                None
            },
            GateFunction::Mul => if args.len() == 2 {
                Value::product(args[0], args[1])
            } else {
                None
            },
            GateFunction::Neg => if args.len() == 1 {
                Value::negation(args[0])
            } else {
                None
            },
            GateFunction::AddConstant(c) => if args.len() == 1 {
                Value::sum(args[0], c@)
            } else {
                None
            },
            GateFunction::SubConstant(c) => if args.len() == 1 {
                Value::difference(args[0], c@)
            } else {
                None
            },
            GateFunction::MulConstant(c) => if args.len() == 1 {
                match c {
                    Constant::Scalar(_) => Value::product(c@, args[0]),
                    Constant::Point(_) => Value::product(args[0], c@),
                }
            } else {
                None
            },
            GateFunction::Pass => if args.len() == 1 {
                group_element(args[0])
            } else {
                None
            },
            GateFunction::AddPublic { party_id } => if args.len() == 2 {
                Value::sum_public(party_id, args[0], args[1])
            } else {
                None
            },
            GateFunction::SubPublic { party_id } => if args.len() == 2 {
                Value::difference_public(party_id, args[0], args[1])
            } else {
                None
            },
            GateFunction::MacCheck => if args.len() == 4 {
                Value::mac_check(args[0], args[1], args[2], args[3])
            } else {
                None
            },
            GateFunction::Commit { blinder } => if args.len() == 1 {
                match Value::encoding(args[0]) {
                    Some(bytes) => Some(Value::Scalar(commitment_of(bytes, blinder))),
                    None => None,
                }
            } else {
                None
            },
            GateFunction::VerifyMacCheck => if args.len() == 4 {
                Value::mac_verdict(args[0], args[1], args[2], args[3])
            } else {
                None
            },
        }
    }

    /// Apply the function to the values of its arguments
    pub fn eval(&self, args: &Vec<ResultValue>) -> (r: Option<ResultValue>)
        ensures
            value_of(r) == self.eval_spec(values_of(args@)),
    {
        match self {
            GateFunction::Add => if args.len() == 2 {
                add_values(&args[0], &args[1])
            } else {
                None
            },
            GateFunction::Sub => if args.len() == 2 {
                sub_values(&args[0], &args[1])
            } else {
                None
            },
            GateFunction::Mul => if args.len() == 2 {
                mul_values(&args[0], &args[1])
            } else {
                None
            },
            GateFunction::Neg => if args.len() == 1 {
                neg_value(&args[0])
            } else {
                None
            },
            GateFunction::AddConstant(c) => if args.len() == 1 {
                add_values(&args[0], &c.to_value())
            } else {
                None
            },
            GateFunction::SubConstant(c) => if args.len() == 1 {
                sub_values(&args[0], &c.to_value())
            } else {
                None
            },
            GateFunction::MulConstant(c) => if args.len() == 1 {
                match c {
                    Constant::Scalar(_) => mul_values(&c.to_value(), &args[0]),
                    Constant::Point(_) => mul_values(&args[0], &c.to_value()),
                }
            } else {
                None
            },
            GateFunction::Pass => if args.len() == 1 {
                element_of_group(&args[0])
            } else {
                None
            },
            GateFunction::AddPublic { party_id } => if args.len() == 2 {
                add_public(*party_id, &args[0], &args[1])
            } else {
                None
            },
            GateFunction::SubPublic { party_id } => if args.len() == 2 {
                sub_public(*party_id, &args[0], &args[1])
            } else {
                None
            },
            GateFunction::MacCheck => if args.len() == 4 {
                mac_check(&args[0], &args[1], &args[2], &args[3])
            } else {
                None
            },
            GateFunction::Commit { blinder } => if args.len() == 1 {
                match encode_value(&args[0]) {
                    Some(bytes) => Some(ResultValue::Scalar(hash_commit(bytes, blinder))),
                    None => None,
                }
            } else {
                None
            },
            GateFunction::VerifyMacCheck => if args.len() == 4 {
                verify_mac_check(&args[0], &args[1], &args[2], &args[3])
            } else {
                None
            },
        }
    }
}

/// The function of a gate with several results
#[derive(Clone, Copy, Debug, PartialEq, Eq)]
pub enum BatchGateFunction {
    /// The elements of the argument, a batch
    Split,
    /// The sums of the first half of the arguments and the second half,
    /// element by element
    BatchAdd,
    /// The differences of the first half of the arguments and the second half,
    /// element by element
    BatchSub,
    /// The negations of the arguments
    BatchNeg,
    /// The products of the first half of the arguments, scalars, and the second
    /// half, element by element
    BatchMul,
    /// The arguments are `n` shares followed by the batch of the peer's
    /// shares; the results are the opened values, the first party's share
    /// added to the other's
    BatchOpen {
        /// The party that evaluates this gate
        party_id: u64,
    },
    /// The arguments are `n` shares followed by `n` public values; the results
    /// are the sums as the given party holds them
    BatchSharePlusPublic {
        /// The party that evaluates this gate
        party_id: u64,
    },
    /// The arguments are the results of `n` authenticated values, followed by
    /// `n` public values; the results are those of the authenticated sums
    BatchAddPublic {
        /// The party that evaluates this gate
        party_id: u64,
    },
    /// The arguments are the results of `n` authenticated values, followed by
    /// `n` public values; the results are those of the authenticated
    /// differences
    BatchSubPublic {
        /// The party that evaluates this gate
        party_id: u64,
    },
    /// The arguments are `n` public scalars, followed by the results of `n`
    /// authenticated values; the results are those of the authenticated
    /// products
    BatchMulPublic,
    /// The arguments are the results of `n` authenticated scalars, followed by
    /// `n` public values; the results are those of the authenticated products
    BatchMulAuthenticated,
    /// The products of the arguments, scalars, and the curve's generator
    BatchMulGenerator,
    /// The arguments are the results of `n` authenticated points; the results are
    /// those of their authenticated sum
    SumTriples,
    /// The arguments are a key share followed by an opened value, a public
    /// modifier and a MAC share for each of `n` authenticated values; the
    /// results are the MAC check shares
    BatchMacCheck,
    /// The arguments are `n` local MAC check shares followed by three batches:
    /// the peer's shares, blinders and commitments; the results are the verdicts
    BatchVerifyMacCheck,
}

/// The sum of `count` values, every third one from `start` on, counted from
/// the curve identity
pub open spec fn strided_sum(args: Seq<Value>, start: int, count: nat) -> Option<Value>
    decreases count,
{
    if count == 0 {
        Some(Value::Point(StarkPoint::identity_spec()))
    } else {
        let index = start + 3 * (count - 1);
        match strided_sum(args, start, (count - 1) as nat) {
            Some(partial) => if 0 <= index < args.len() {
                Value::sum(partial, args[index])
            } else {
                None
            },
            None => None,
        }
    }
}

/// The element of a batch at an index, as a value
pub open spec fn batch_element(batch: Value, len: int, k: int) -> Option<Value> {
    match batch {
        Value::ScalarBatch(scalars) => if scalars.len() == len && 0 <= k < len {
            Some(Value::Scalar(scalars[k]))
        } else {
            None
        },
        Value::PointBatch(points) => if points.len() == len && 0 <= k < len {
            Some(Value::Point(points[k]))
        } else {
            None
        },
        _ => None,
    }
}

/// A scalar or a point, and nothing for a value of another kind
pub open spec fn group_element(value: Value) -> Option<Value> {
    match value {
        Value::Scalar(_) => Some(value),
        Value::Point(_) => Some(value),
        _ => None,
    }
}

impl BatchGateFunction {
    /// The result at index `k` of the function on the values of its
    /// arguments, for a gate with `arity` results
    pub open spec fn output_spec(self, args: Seq<Value>, arity: int, k: int) -> Option<Value> {
        if !(0 <= k < arity) {
            None
        } else {
            match self {
                BatchGateFunction::Split => if args.len() == 1 {
                    batch_element(args[0], arity, k)
                } else {
                    None
                },
                BatchGateFunction::BatchAdd => if args.len() == 2 * arity {
                    Value::sum(args[k], args[arity + k])
                } else {
                    None
                },
                BatchGateFunction::BatchSub => if args.len() == 2 * arity {
                    Value::difference(args[k], args[arity + k])
                } else {
                    None
                },
                BatchGateFunction::BatchNeg => if args.len() == arity {
                    Value::negation(args[k])
                } else {
                    None
                },
                BatchGateFunction::BatchMul => if args.len() == 2 * arity {
                    Value::product(args[k], args[arity + k])
                } else {
                    None
                },
                BatchGateFunction::BatchOpen { party_id } => if args.len() == arity + 1 {
                    match batch_element(args[arity], arity, k) {
                        Some(peer) => if party_id == PARTY0 {
                            Value::sum(args[k], peer)
                        } else {
                            Value::sum(peer, args[k])
                        },
                        None => None,
                    }
                } else {
                    None
                },
                BatchGateFunction::BatchSharePlusPublic { party_id } => if args.len() == 2
                    * arity {
                    Value::sum_public(party_id, args[k], args[arity + k])
                } else {
                    None
                },
                BatchGateFunction::BatchAddPublic { party_id } => if arity % 3 == 0 && args.len()
                    == arity + arity / 3 {
                    if k % 3 == 0 {
                        if party_id == PARTY0 {
                            Value::sum(args[k], args[arity + k / 3])
                        } else {
                            group_element(args[k])
                        }
                    } else if k % 3 == 1 {
                        group_element(args[k])
                    } else {
                        Value::difference(args[k], args[arity + k / 3])
                    }
                } else {
                    None
                },
                BatchGateFunction::BatchSubPublic { party_id } => if arity % 3 == 0 && args.len()
                    == arity + arity / 3 {
                    if k % 3 == 0 {
                        if party_id == PARTY0 {
                            Value::difference(args[k], args[arity + k / 3])
                        } else {
                            group_element(args[k])
                        }
                    } else if k % 3 == 1 {
                        group_element(args[k])
                    } else {
                        Value::sum(args[k], args[arity + k / 3])
                    }
                } else {
                    None
                },
                BatchGateFunction::BatchMulPublic => if arity % 3 == 0 && args.len() == arity
                    + arity / 3 {
                    Value::product(args[k / 3], args[arity / 3 + k])
                } else {
                    None
                },
                BatchGateFunction::BatchMulAuthenticated => if arity % 3 == 0 && args.len()
                    == arity + arity / 3 {
                    Value::product(args[k], args[arity + k / 3])
                } else {
                    None
                },
                BatchGateFunction::BatchMulGenerator => if args.len() == arity {
                    Value::product(args[k], Value::Point(StarkPoint::generator_spec()))
                } else {
                    None
                },
                BatchGateFunction::SumTriples => if arity == 3 && args.len() % 3 == 0 {
                    strided_sum(args, k, args.len() / 3)
                } else {
                    None
                },
                BatchGateFunction::BatchMacCheck => if args.len() == 1 + 3 * arity {
                    Value::mac_check(args[0], args[1 + 3 * k], args[2 + 3 * k], args[3 + 3 * k])
                } else {
                    None
                },
                BatchGateFunction::BatchVerifyMacCheck => if args.len() == arity + 3 {
                    match (
                        batch_element(args[arity], arity, k),
                        batch_element(args[arity + 1], arity, k),
                        batch_element(args[arity + 2], arity, k),
                    ) {
                        (Some(peer), Some(blinder), Some(commitment)) => Value::mac_verdict(
                            args[k],
                            peer,
                            blinder,
                            commitment,
                        ),
                        _ => None,
                    }
                } else {
                    None
                },
            }
        }
    }

    /// The results of the function on the values of its arguments, when the
    /// gate has `arity` results
    pub open spec fn eval_spec(self, args: Seq<Value>, arity: int) -> Option<Seq<Value>> {
        if forall|k: int| 0 <= k < arity ==> (#[trigger] self.output_spec(args, arity, k)) is Some {
            Some(Seq::new(arity as nat, |k: int| self.output_spec(args, arity, k).unwrap()))
        } else {
            None
        }
    }

    /// Compute the result at index `k`
    pub fn output(&self, args: &Vec<ResultValue>, arity: usize, k: usize) -> (r: Option<
        ResultValue,
    >)
        ensures
            value_of(r) == self.output_spec(values_of(args@), arity as int, k as int),
    {
        if k >= arity {
            return None;
        }
        let len = args.len();
        match self {
            BatchGateFunction::Split => if len == 1 {
                element_of_batch(&args[0], arity, k)
            } else {
                None
            },
            BatchGateFunction::BatchAdd => if arity <= len && len - arity == arity {
                add_values(&args[k], &args[arity + k])
            } else {
                None
            },
            BatchGateFunction::BatchSub => if arity <= len && len - arity == arity {
                sub_values(&args[k], &args[arity + k])
            } else {
                None
            },
            BatchGateFunction::BatchNeg => if len == arity {
                neg_value(&args[k])
            } else {
                None
            },
            BatchGateFunction::BatchMul => if arity <= len && len - arity == arity {
                mul_values(&args[k], &args[arity + k])
            } else {
                None
            },
            BatchGateFunction::BatchOpen { party_id } => if arity < len && len - arity == 1 {
                match element_of_batch(&args[arity], arity, k) {
                    Some(peer) => if *party_id == PARTY0 {
                        add_values(&args[k], &peer)
                    } else {
                        add_values(&peer, &args[k])
                    },
                    None => None,
                }
            } else {
                None
            },
            BatchGateFunction::BatchSharePlusPublic { party_id } => if arity <= len && len - arity
                == arity {
                add_public(*party_id, &args[k], &args[arity + k])
            } else {
                None
            },
            BatchGateFunction::BatchAddPublic { party_id } => if arity % 3 == 0 && arity <= len
                && len - arity == arity / 3 {
                if k % 3 == 0 {
                    if *party_id == PARTY0 {
                        add_values(&args[k], &args[arity + k / 3])
                    } else {
                        element_of_group(&args[k])
                    }
                } else if k % 3 == 1 {
                    element_of_group(&args[k])
                } else {
                    sub_values(&args[k], &args[arity + k / 3])
                }
            } else {
                None
            },
            BatchGateFunction::BatchSubPublic { party_id } => if arity % 3 == 0 && arity <= len
                && len - arity == arity / 3 {
                if k % 3 == 0 {
                    if *party_id == PARTY0 {
                        sub_values(&args[k], &args[arity + k / 3])
                    } else {
                        element_of_group(&args[k])
                    }
                } else if k % 3 == 1 {
                    element_of_group(&args[k])
                } else {
                    add_values(&args[k], &args[arity + k / 3])
                }
            } else {
                None
            },
            BatchGateFunction::BatchMulPublic => if arity % 3 == 0 && arity <= len && len - arity
                == arity / 3 {
                mul_values(&args[k / 3], &args[arity / 3 + k])
            } else {
                None
            },
            BatchGateFunction::BatchMulAuthenticated => if arity % 3 == 0 && arity <= len && len
                - arity == arity / 3 {
                mul_values(&args[k], &args[arity + k / 3])
            } else {
                None
            },
            BatchGateFunction::BatchMulGenerator => if len == arity {
                mul_values(&args[k], &ResultValue::Point(StarkPoint::generator()))
            } else {
                None
            },
            BatchGateFunction::SumTriples => if arity == 3 && len % 3 == 0 {
                sum_strided(args, k)
            } else {
                None
            },
            BatchGateFunction::BatchMacCheck => if len >= 1 && (len - 1) % 3 == 0 && (len - 1) / 3
                == arity {
                mac_check(&args[0], &args[1 + 3 * k], &args[2 + 3 * k], &args[3 + 3 * k])
            } else {
                None
            },
            BatchGateFunction::BatchVerifyMacCheck => if len >= 3 && len - 3 == arity {
                let peer = element_of_batch(&args[arity], arity, k);
                let blinder = element_of_batch(&args[arity + 1], arity, k);
                let commitment = element_of_batch(&args[arity + 2], arity, k);
                match (peer, blinder, commitment) {
                    (Some(peer), Some(blinder), Some(commitment)) => verify_mac_check(
                        &args[k],
                        &peer,
                        &blinder,
                        &commitment,
                    ),
                    _ => None,
                }
            } else {
                None
            },
        }
    }

    /// Apply the function to the values of its arguments, for a gate with
    /// `arity` results
    pub fn eval(&self, args: &Vec<ResultValue>, arity: usize) -> (r: Option<Vec<ResultValue>>)
        ensures
            r is Some <==> self.eval_spec(values_of(args@), arity as int) is Some,
            r matches Some(outputs) ==> self.eval_spec(values_of(args@), arity as int) == Some(
                values_of(outputs@),
            ),
    {
        let mut outputs: Vec<ResultValue> = Vec::new();
        let mut k: usize = 0;
        while k < arity
            invariant
                k <= arity,
                outputs@.len() == k,
                forall|j: int|
                    0 <= j < k ==> (#[trigger] self.output_spec(
                        values_of(args@),
                        arity as int,
                        j,
                    )) == Some(outputs@[j]@),
            decreases arity - k,
        {
            match self.output(args, arity, k) {
                Some(value) => {
                    outputs.push(value);
                },
                None => {
                    return None;
                },
            }
            k += 1;
        }
        proof {
            let expected = self.eval_spec(values_of(args@), arity as int);
            assert(expected is Some);
            assert(expected.unwrap() =~= values_of(outputs@));
        }
        Some(outputs)
    }
}

/// The element of a batch at an index
fn element_of_batch(batch: &ResultValue, len: usize, k: usize) -> (r: Option<ResultValue>)
    ensures
        value_of(r) == batch_element(batch@, len as int, k as int),
{
    match batch {
        ResultValue::ScalarBatch(scalars) => if scalars.len() == len && k < len {
            Some(ResultValue::Scalar(scalars[k]))
        } else {
            None
        },
        ResultValue::PointBatch(points) => if points.len() == len && k < len {
            Some(ResultValue::Point(points[k]))
        } else {
            None
        },
        _ => None,
    }
}

/// A copy of a scalar or a point, and nothing for a value of another kind
fn element_of_group(value: &ResultValue) -> (r: Option<ResultValue>)
    ensures
        value_of(r) == group_element(value@),
{
    match value {
        ResultValue::Scalar(scalar) => Some(ResultValue::Scalar(*scalar)),
        ResultValue::Point(point) => Some(ResultValue::Point(*point)),
        _ => None,
    }
}

/// The sum of every third value from `start` on, counted from the curve
/// identity
fn sum_strided(args: &Vec<ResultValue>, start: usize) -> (r: Option<ResultValue>)
    requires
        start < 3,
        args@.len() % 3 == 0,
    ensures
        value_of(r) == strided_sum(values_of(args@), start as int, args@.len() / 3),
{
    let mut total = ResultValue::Point(StarkPoint::identity());
    let len = args.len();
    let count = len / 3;
    let mut i: usize = 0;
    while i < count
        invariant
            len == args@.len(),
            count == len / 3,
            len % 3 == 0,
            start < 3,
            i <= count,
            strided_sum(values_of(args@), start as int, i as nat) == Some(total@),
        decreases count - i,
    {
        match add_values(&total, &args[start + 3 * i]) {
            Some(next) => {
                total = next;
            },
            None => {
                proof {
                    assert(strided_sum(values_of(args@), start as int, (i + 1) as nat) is None);
                    lemma_strided_sum_fails(
                        values_of(args@),
                        start as int,
                        (i + 1) as nat,
                        count as nat,
                    );
                }
                return None;
            },
        }
        i += 1;
    }
    Some(total)
}

/// A strided sum that has no value for some number of terms has none for more
proof fn lemma_strided_sum_fails(args: Seq<Value>, start: int, failed: nat, count: nat)
    requires
        failed <= count,
        strided_sum(args, start, failed) is None,
    ensures
        strided_sum(args, start, count) is None,
    decreases count,
{
    if failed < count {
        lemma_strided_sum_fails(args, start, failed, (count - 1) as nat);
    }
}

/// The batched MAC check computes, for each value, what the single MAC check
/// computes on the key share and that value's results
pub proof fn lemma_batch_mac_check_elementwise(args: Seq<Value>, arity: int, k: int)
    requires
        0 <= k < arity,
        args.len() == 1 + 3 * arity,
    ensures
        BatchGateFunction::BatchMacCheck.output_spec(args, arity, k)
            == GateFunction::MacCheck.eval_spec(
            seq![args[0], args[1 + 3 * k], args[2 + 3 * k], args[3 + 3 * k]],
        ),
{
}

/// The batched verdict is, for each value, the verdict of the single check
/// on the local share and the peer's share, blinder and commitment for that
/// value
pub proof fn lemma_batch_verdict_elementwise(
    shares: Seq<Value>,
    peers: Seq<StarkPoint>,
    blinders: Seq<Scalar>,
    commitments: Seq<Scalar>,
    k: int,
)
    requires
        0 <= k < shares.len(),
        peers.len() == shares.len(),
        blinders.len() == shares.len(),
        commitments.len() == shares.len(),
    ensures
        BatchGateFunction::BatchVerifyMacCheck.output_spec(
            shares + seq![
                Value::PointBatch(peers),
                Value::ScalarBatch(blinders),
                Value::ScalarBatch(commitments),
            ],
            shares.len() as int,
            k,
        ) == GateFunction::VerifyMacCheck.eval_spec(
            seq![
                shares[k],
                Value::Point(peers[k]),
                Value::Scalar(blinders[k]),
                Value::Scalar(commitments[k]),
            ],
        ),
{
}

/// Opening a batch computes, for each value, what opening a single value
/// computes: the sum of the first party's share and the other's
pub proof fn lemma_batch_open_elementwise(
    party_id: u64,
    shares: Seq<Value>,
    peers: Seq<Scalar>,
    k: int,
)
    requires
        0 <= k < shares.len(),
        peers.len() == shares.len(),
    ensures
        (BatchGateFunction::BatchOpen { party_id }).output_spec(
            shares.push(Value::ScalarBatch(peers)),
            shares.len() as int,
            k,
        ) == GateFunction::Add.eval_spec(
            if party_id == PARTY0 {
                seq![shares[k], Value::Scalar(peers[k])]
            } else {
                seq![Value::Scalar(peers[k]), shares[k]]
            },
        ),
{
}

/// The function by which a network operation derives the payload it sends
#[derive(Clone, Copy, Debug, PartialEq, Eq)]
pub enum NetworkFunction {
    /// The payload is the value of the single argument
    SendArgument,
    /// The payload is the batch of the arguments, all of them scalars
    SendScalarBatch,
    /// The payload is the batch of the arguments, all of them points
    SendPointBatch,
}

/// The scalars that a list of values holds, if it holds nothing else
pub open spec fn all_scalars(args: Seq<Value>) -> Option<Seq<Scalar>> {
    if forall|i: int| 0 <= i < args.len() ==> (#[trigger] args[i]) is Scalar {
        Some(Seq::new(args.len(), |i: int| args[i]->Scalar_0))
    } else {
        None
    }
}

/// The points that a list of values holds, if it holds nothing else
pub open spec fn all_points(args: Seq<Value>) -> Option<Seq<StarkPoint>> {
    if forall|i: int| 0 <= i < args.len() ==> (#[trigger] args[i]) is Point {
        Some(Seq::new(args.len(), |i: int| args[i]->Point_0))
    } else {
        None
    }
}

impl NetworkFunction {
    /// The payload that the function derives from the values of its arguments
    pub open spec fn eval_spec(self, args: Seq<Value>) -> Option<Value> {
        match self {
            NetworkFunction::SendArgument => if args.len() == 1 {
                Some(args[0])
            } else {
                None
            },
            NetworkFunction::SendScalarBatch => match all_scalars(args) {
                Some(scalars) => Some(Value::ScalarBatch(scalars)),
                None => None,
            },
            NetworkFunction::SendPointBatch => match all_points(args) {
                Some(points) => Some(Value::PointBatch(points)),
                None => None,
            },
        }
    }

    /// Derive the payload from the values of the arguments
    pub fn eval(&self, args: &Vec<ResultValue>) -> (r: Option<NetworkPayload>)
        ensures
            r is Some <==> self.eval_spec(values_of(args@)) is Some,
            r matches Some(payload) ==> self.eval_spec(values_of(args@)) == Some(payload@),
    {
        match self {
            NetworkFunction::SendArgument => if args.len() == 1 {
                Some(args[0].clone().into_payload())
            } else {
                None
            },
            NetworkFunction::SendScalarBatch => {
                let mut scalars: Vec<Scalar> = Vec::new();
                let mut i: usize = 0;
                while i < args.len()
                    invariant
                        self is SendScalarBatch,
                        i <= args@.len(),
                        scalars@.len() == i,
                        forall|j: int|
                            0 <= j < i ==> (#[trigger] values_of(args@)[j]) == Value::Scalar(
                                scalars@[j],
                            ),
                    decreases args@.len() - i,
                {
                    match args[i].to_scalar() {
                        Some(scalar) => {
                            scalars.push(scalar);
                        },
                        None => {
                            assert(!(values_of(args@)[i as int] is Scalar));
                            assert(all_scalars(values_of(args@)) is None);
                            return None;
                        },
                    }
                    i += 1;
                }
                proof {
                    let expected = all_scalars(values_of(args@));
                    assert(expected is Some);
                    assert(expected.unwrap() =~= scalars@);
                }
                Some(NetworkPayload::ScalarBatch(scalars))
            },
            NetworkFunction::SendPointBatch => {
                let mut points: Vec<StarkPoint> = Vec::new();
                let mut i: usize = 0;
                while i < args.len()
                    invariant
                        self is SendPointBatch,
                        i <= args@.len(),
                        points@.len() == i,
                        forall|j: int|
                            0 <= j < i ==> (#[trigger] values_of(args@)[j]) == Value::Point(
                                points@[j],
                            ),
                    decreases args@.len() - i,
                {
                    match args[i].to_point() {
                        Some(point) => {
                            points.push(point);
                        },
                        None => {
                            assert(!(values_of(args@)[i as int] is Point));
                            assert(all_points(values_of(args@)) is None);
                            return None;
                        },
                    }
                    i += 1;
                }
                proof {
                    let expected = all_points(values_of(args@));
                    assert(expected is Some);
                    assert(expected.unwrap() =~= points@);
                }
                Some(NetworkPayload::PointBatch(points))
            },
        }
    }
}

/// A kind of value that travels to the peer in batches
pub trait BatchElement: Sized {
    /// The function by which a batch of values of this kind is sent
    spec fn send_function() -> NetworkFunction;

    /// The function by which a batch of values of this kind is sent
    fn batch_send_function() -> (r: NetworkFunction)
        ensures
            r == Self::send_function(),
    ;
}

impl BatchElement for Scalar {
    open spec fn send_function() -> NetworkFunction {
        NetworkFunction::SendScalarBatch
    }

    fn batch_send_function() -> (r: NetworkFunction) {
        NetworkFunction::SendScalarBatch
    }
}

impl BatchElement for StarkPoint {
    open spec fn send_function() -> NetworkFunction {
        NetworkFunction::SendPointBatch
    }

    fn batch_send_function() -> (r: NetworkFunction) {
        NetworkFunction::SendPointBatch
    }
}

} // verus!
