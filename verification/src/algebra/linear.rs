//! A linear combination of authenticated scalars, followed through the graphs
//! of both parties: opened under authentication, it is the combination of the
//! values, and the verdict of both parties is that it is authentic

use vstd::prelude::*;

use crate::algebra::authenticated_scalar::AuthenticatedIds;
use crate::algebra::authentication::holds;
use crate::algebra::authentication::lemma_authenticated_opening;
use crate::algebra::authentication::lemma_opening_step;
use crate::algebra::authentication::lemma_opening_unfolded;
use crate::algebra::authentication::opening_steps;
use crate::algebra::local::after_gates;
use crate::algebra::local::allocated;
use crate::algebra::local::lemma_gates_follow;
use crate::algebra::local::lemma_plus_constant_held;
use crate::algebra::local::lemma_sum_held;
use crate::algebra::local::lemma_times_public_held;
use crate::algebra::local::part_held;
use crate::algebra::scalar::Scalar;
use crate::algebra::spdz::authentic;
use crate::algebra::spdz::lemma_product_authentic;
use crate::algebra::spdz::lemma_public_sum_authentic;
use crate::algebra::spdz::lemma_sum_authentic;
use crate::algebra::spdz::opened;
use crate::algebra::spdz::ScalarPart;
use crate::fabric::gate::Constant;
use crate::fabric::gate::GateFunction;
use crate::fabric::parties::lemma_extends_transitive;
use crate::fabric::parties::lemma_follows_transitive;
use crate::fabric::parties::lemma_paired_at;
use crate::fabric::parties::lemma_proceeds_at;
use crate::fabric::parties::paired;
use crate::fabric::parties::Course;
use crate::fabric::result::ResultId;
use crate::fabric::result::Value;
use crate::fabric::FabricState;
use crate::network::OutboundView;
use crate::PARTY0;

verus! {

/// The three results that an operation with three gates declares in a state
pub open spec fn triple_at(n: int) -> AuthenticatedIds {
    AuthenticatedIds {
        share: n as usize,
        mac: (n + 1) as usize,
        public_modifier: (n + 2) as usize,
    }
}

/// The state after `a x` has been declared, for an authenticated `x` and a
/// public `a`
pub open spec fn scaled(s: FabricState, x: AuthenticatedIds, a: ResultId) -> FabricState {
    s.auth_times_public(x, a)
}

/// The state after `a x + b y` has been declared
pub open spec fn combined(
    s: FabricState,
    x: AuthenticatedIds,
    y: AuthenticatedIds,
    a: ResultId,
    b: ResultId,
) -> FabricState {
    let n = s.next_result_id;
    scaled(scaled(s, x, a), y, b).auth_sum(triple_at(n), triple_at(n + 3))
}

/// The state after `a x + b y + c` has been declared, for a public
/// constant `c`
pub open spec fn shifted(
    s: FabricState,
    x: AuthenticatedIds,
    y: AuthenticatedIds,
    a: ResultId,
    b: ResultId,
    c: Scalar,
) -> FabricState {
    let n = s.next_result_id;
    combined(s, x, y, a, b).auth_plus_constant(triple_at(n + 6), Constant::Scalar(c))
}

/// The results of `a x + b y + c`
pub open spec fn shifted_ids(s: FabricState) -> AuthenticatedIds {
    let n = s.next_result_id;
    AuthenticatedIds {
        share: (n + 9) as usize,
        mac: (n + 7) as usize,
        public_modifier: (n + 10) as usize,
    }
}

/// The state after `a x + b y + c` has been declared and opened under
/// authentication
pub open spec fn linear_opened(
    s: FabricState,
    x: AuthenticatedIds,
    y: AuthenticatedIds,
    a: ResultId,
    b: ResultId,
    c: Scalar,
    blinder: Scalar,
) -> FabricState {
    shifted(s, x, y, a, b, c).auth_opened(shifted_ids(s), blinder)
}

/// The three gates of an operation on all three parts follow the state in
/// which they are declared
proof fn lemma_three_follow(s: FabricState, args: Seq<Seq<ResultId>>, functions: Seq<GateFunction>)
    requires
        s.bounded(),
        s.quiet_ahead(),
        s.has_room(3),
    ensures
        after_gates(s, args, functions, 3).follows(s, 3, 3),
{
    lemma_gates_follow(s, args, functions, 3);
}

/// The declarations of `a x + b y + c` follow one another
pub proof fn lemma_linear_graph(
    s: FabricState,
    x: AuthenticatedIds,
    y: AuthenticatedIds,
    a: ResultId,
    b: ResultId,
    c: Scalar,
    blinder: Scalar,
)
    requires
        s.bounded(),
        s.quiet_ahead(),
        s.has_room(24),
    ensures
        scaled(s, x, a).follows(s, 3, 3),
        scaled(scaled(s, x, a), y, b).follows(s, 6, 6),
        combined(s, x, y, a, b).follows(s, 9, 9),
        shifted(s, x, y, a, b, c).follows(s, 11, 11),
        linear_opened(s, x, y, a, b, c, blinder).follows(s, 24, 19),
        scaled(scaled(s, x, a), y, b).extends(scaled(s, x, a)),
        combined(s, x, y, a, b).extends(scaled(scaled(s, x, a), y, b)),
        shifted(s, x, y, a, b, c).extends(combined(s, x, y, a, b)),
        linear_opened(s, x, y, a, b, c, blinder).extends(shifted(s, x, y, a, b, c)),
{
    let n = s.next_result_id;
    let mul = seq![GateFunction::Mul, GateFunction::Mul, GateFunction::Mul];
    let add = seq![GateFunction::Add, GateFunction::Add, GateFunction::Add];
    let s1 = scaled(s, x, a);
    let s2 = scaled(s1, y, b);
    let s3 = combined(s, x, y, a, b);
    let s4 = shifted(s, x, y, a, b, c);
    let s5 = linear_opened(s, x, y, a, b, c, blinder);
    let first = seq![seq![a, x.share], seq![a, x.mac], seq![a, x.public_modifier]];
    let second = seq![seq![b, y.share], seq![b, y.mac], seq![b, y.public_modifier]];
    let sum = seq![
        seq![triple_at(n).share, triple_at(n + 3).share],
        seq![triple_at(n).mac, triple_at(n + 3).mac],
        seq![triple_at(n).public_modifier, triple_at(n + 3).public_modifier],
    ];
    assert(after_gates(s, first, mul, 3) == s1) by {
        reveal_with_fuel(after_gates, 4);
    }
    lemma_three_follow(s, first, mul);
    assert(after_gates(s1, second, mul, 3) == s2) by {
        reveal_with_fuel(after_gates, 4);
    }
    lemma_three_follow(s1, second, mul);
    lemma_follows_transitive(s, s1, s2, 3, 3, 3, 3);
    assert(after_gates(s2, sum, add, 3) == s3) by {
        reveal_with_fuel(after_gates, 4);
    }
    lemma_three_follow(s2, sum, add);
    lemma_follows_transitive(s, s2, s3, 6, 6, 3, 3);
    let constant = Constant::Scalar(c);
    let shift = seq![seq![triple_at(n + 6).share], seq![triple_at(n + 6).public_modifier]];
    let shifts = seq![
        if s.party_id == PARTY0 {
            GateFunction::AddConstant(constant)
        } else {
            GateFunction::Pass
        },
        GateFunction::SubConstant(constant),
    ];
    assert(after_gates(s3, shift, shifts, 2) == s4) by {
        reveal_with_fuel(after_gates, 3);
    }
    lemma_gates_follow(s3, shift, shifts, 2);
    lemma_follows_transitive(s, s3, s4, 9, 9, 2, 2);
    lemma_opening_step(s4, shifted_ids(s), blinder, opening_steps());
    lemma_opening_unfolded(s4, shifted_ids(s), blinder);
    lemma_follows_transitive(s, s4, s5, 11, 11, 13, 8);
}

/// What a party holds of `a x + b y + c`, given what it holds of `x` and `y`
pub open spec fn linear_part(
    party_id: u64,
    x: ScalarPart,
    y: ScalarPart,
    a: Scalar,
    b: Scalar,
    c: Scalar,
) -> ScalarPart {
    x.times(a).plus(y.times(b)).plus_public(party_id, c)
}

/// Once a party has settled, it holds `a x + b y + c` under the results of
/// the last addition
pub proof fn lemma_linear_held(
    course: Course,
    from_peer: Seq<OutboundView>,
    x: AuthenticatedIds,
    y: AuthenticatedIds,
    a: ResultId,
    b: ResultId,
    c: Scalar,
    blinder: Scalar,
    x_part: ScalarPart,
    y_part: ScalarPart,
    a_value: Scalar,
    b_value: Scalar,
)
    requires
        course.proceeds(from_peer, 24),
        course.declared.extends(linear_opened(course.before, x, y, a, b, c, blinder)),
        allocated(course, x),
        allocated(course, y),
        part_held(course, x, x_part),
        part_held(course, y, y_part),
        a < course.before.next_result_id,
        b < course.before.next_result_id,
        course.settled.results.dom().contains(a as int),
        course.settled.results[a as int] == Value::Scalar(a_value),
        course.settled.results.dom().contains(b as int),
        course.settled.results[b as int] == Value::Scalar(b_value),
    ensures
        part_held(
            course,
            shifted_ids(course.before),
            linear_part(course.before.party_id, x_part, y_part, a_value, b_value, c),
        ),
{
    let s = course.before;
    let n = s.next_result_id;
    let s1 = scaled(s, x, a);
    let s2 = scaled(s1, y, b);
    let s3 = combined(s, x, y, a, b);
    let s4 = shifted(s, x, y, a, b, c);
    let s5 = linear_opened(s, x, y, a, b, c, blinder);
    assert(s.bounded() && s.quiet_ahead() && s.has_room(24)) by {
        reveal(Course::proceeds);
    }
    lemma_linear_graph(s, x, y, a, b, c, blinder);
    lemma_extends_transitive(s4, s5, course.declared);
    lemma_extends_transitive(s3, s4, course.declared);
    lemma_extends_transitive(s2, s3, course.declared);
    lemma_extends_transitive(s1, s2, course.declared);
    lemma_proceeds_at(course, from_peer, 24, s, 0, 0, 3);
    assert(course.at(s) == course);
    lemma_times_public_held(course, from_peer, x, a, x_part, a_value);
    lemma_proceeds_at(course, from_peer, 24, s1, 3, 3, 3);
    lemma_times_public_held(course.at(s1), from_peer, y, b, y_part, b_value);
    lemma_proceeds_at(course, from_peer, 24, s2, 6, 6, 3);
    lemma_sum_held(
        course.at(s2),
        from_peer,
        triple_at(n),
        triple_at(n + 3),
        x_part.times(a_value),
        y_part.times(b_value),
    );
    lemma_proceeds_at(course, from_peer, 24, s3, 9, 9, 2);
    lemma_plus_constant_held(
        course.at(s3),
        from_peer,
        triple_at(n + 6),
        c,
        x_part.times(a_value).plus(y_part.times(b_value)),
    );
}

/// Opening `a x + b y + c` under authentication gives both parties the
/// combination of the values, and the verdict that it is authentic. Two
/// parties that have allocated as many results, and that hold the parts of
/// two authenticated scalars `x` and `y` and the public scalars `a` and `b`
/// under the same identifiers, declare `a x + b y + c` for a public constant
/// `c` and open it under authentication; once each has evaluated its graph
/// and taken in what the other has sent, the opened value of both is `a` times
/// the value of `x`, plus `b` times the value of `y`, plus `c`, and the
/// verdict of both is one.
pub proof fn lemma_linear_opening(
    first: Course,
    second: Course,
    x: AuthenticatedIds,
    y: AuthenticatedIds,
    a: ResultId,
    b: ResultId,
    c: Scalar,
    first_blinder: Scalar,
    second_blinder: Scalar,
    key0: Scalar,
    key1: Scalar,
    x0: ScalarPart,
    x1: ScalarPart,
    y0: ScalarPart,
    y1: ScalarPart,
    a_value: Scalar,
    b_value: Scalar,
)
    requires
        paired(first, second, 24),
        second.before.party_id == crate::PARTY1,
        first.declared.extends(linear_opened(first.before, x, y, a, b, c, first_blinder)),
        second.declared.extends(linear_opened(second.before, x, y, a, b, c, second_blinder)),
        holds(first, x, key0, x0),
        holds(second, x, key1, x1),
        holds(first, y, key0, y0),
        holds(second, y, key1, y1),
        authentic(key0, key1, x0, x1),
        authentic(key0, key1, y0, y1),
        a < first.before.next_result_id,
        b < first.before.next_result_id,
        first.settled.results.dom().contains(a as int),
        first.settled.results[a as int] == Value::Scalar(a_value),
        first.settled.results.dom().contains(b as int),
        first.settled.results[b as int] == Value::Scalar(b_value),
        second.settled.results.dom().contains(a as int),
        second.settled.results[a as int] == Value::Scalar(a_value),
        second.settled.results.dom().contains(b as int),
        second.settled.results[b as int] == Value::Scalar(b_value),
    ensures
        ({
            let n = first.before.next_result_id;
            let value = a_value.mul_spec(opened(x0.share, x1.share)).add_spec(
                b_value.mul_spec(opened(y0.share, y1.share)),
            ).add_spec(c);
            &&& first.settled.results.dom().contains(n + 13)
            &&& first.settled.results[n + 13] == Value::Scalar(value)
            &&& second.settled.results.dom().contains(n + 13)
            &&& second.settled.results[n + 13] == Value::Scalar(value)
            &&& first.settled.results.dom().contains(n + 23)
            &&& first.settled.results[n + 23] == Value::Scalar(Scalar::of_nat(1))
            &&& second.settled.results.dom().contains(n + 23)
            &&& second.settled.results[n + 23] == Value::Scalar(Scalar::of_nat(1))
        }),
{
    let n = first.before.next_result_id;
    let part0 = linear_part(PARTY0, x0, y0, a_value, b_value, c);
    let part1 = linear_part(crate::PARTY1, x1, y1, a_value, b_value, c);
    let first_shifted = shifted(first.before, x, y, a, b, c);
    let second_shifted = shifted(second.before, x, y, a, b, c);
    assert(first.before.bounded() && first.before.quiet_ahead() && first.before.has_room(24)
        && second.before.bounded() && second.before.quiet_ahead() && second.before.has_room(24)
        && second.before.next_result_id == n) by {
        reveal(Course::proceeds);
    }
    // Each party holds its parts of the combination
    lemma_linear_held(
        first,
        second.sent(),
        x,
        y,
        a,
        b,
        c,
        first_blinder,
        x0,
        y0,
        a_value,
        b_value,
    );
    lemma_linear_held(
        second,
        first.sent(),
        x,
        y,
        a,
        b,
        c,
        second_blinder,
        x1,
        y1,
        a_value,
        b_value,
    );
    // The parts make up an authenticated scalar, the combination of the values
    lemma_product_authentic(key0, key1, x0, x1, a_value);
    lemma_product_authentic(key0, key1, y0, y1, b_value);
    lemma_sum_authentic(
        key0,
        key1,
        x0.times(a_value),
        x1.times(a_value),
        y0.times(b_value),
        y1.times(b_value),
    );
    lemma_public_sum_authentic(
        key0,
        key1,
        x0.times(a_value).plus(y0.times(b_value)),
        x1.times(a_value).plus(y1.times(b_value)),
        c,
    );
    // which is opened under authentication
    lemma_linear_graph(first.before, x, y, a, b, c, first_blinder);
    lemma_linear_graph(second.before, x, y, a, b, c, second_blinder);
    lemma_paired_at(first, second, 24, first_shifted, second_shifted, 11, 11, 13);
    lemma_authenticated_opening(
        first.at(first_shifted),
        second.at(second_shifted),
        shifted_ids(first.before),
        first_blinder,
        second_blinder,
        key0,
        key1,
        part0,
        part1,
    );
}

} // verus!
