//! What the operations that exchange nothing leave a party with: once the
//! party has settled, it holds under the results of the operation what the
//! operation makes of the parts that it held

use vstd::prelude::*;

use crate::algebra::authenticated_scalar::AuthenticatedIds;
use crate::algebra::openings::lemma_gate_follows;
use crate::algebra::openings::lemma_gate_settled;
use crate::algebra::scalar::Scalar;
use crate::algebra::spdz::ScalarPart;
use crate::fabric::gate::Constant;
use crate::fabric::gate::GateFunction;
use crate::fabric::parties::lemma_extends_transitive;
use crate::fabric::parties::lemma_follows_transitive;
use crate::fabric::parties::lemma_proceeds_at;
use crate::fabric::parties::Course;
use crate::fabric::result::ResultId;
use crate::fabric::result::Value;
use crate::fabric::FabricState;
use crate::network::OutboundView;
use crate::PARTY0;

verus! {

/// Whether a party that has settled holds the parts of an authenticated
/// scalar under the given identifiers
pub open spec fn part_held(course: Course, a: AuthenticatedIds, part: ScalarPart) -> bool {
    let s = course.settled;
    &&& s.results.dom().contains(a.share as int)
    &&& s.results[a.share as int] == Value::Scalar(part.share)
    &&& s.results.dom().contains(a.mac as int)
    &&& s.results[a.mac as int] == Value::Scalar(part.mac)
    &&& s.results.dom().contains(a.public_modifier as int)
    &&& s.results[a.public_modifier as int] == Value::Scalar(part.public_modifier)
}

/// The scalar that a state holds under a result, if it holds one there
pub open spec fn scalar_at(s: FabricState, id: int) -> Scalar {
    match s.results[id] {
        Value::Scalar(x) => x,
        _ => Scalar::of_nat(0),
    }
}

/// The parts of an authenticated scalar that a state holds under the
/// given identifiers
pub open spec fn part_at(s: FabricState, a: AuthenticatedIds) -> ScalarPart {
    ScalarPart {
        share: scalar_at(s, a.share as int),
        mac: scalar_at(s, a.mac as int),
        public_modifier: scalar_at(s, a.public_modifier as int),
    }
}

/// Whether the results of an authenticated scalar were allocated before the
/// declarations at hand
pub open spec fn allocated(course: Course, a: AuthenticatedIds) -> bool {
    &&& a.share < course.before.next_result_id
    &&& a.mac < course.before.next_result_id
    &&& a.public_modifier < course.before.next_result_id
}

/// The state after up to three gates have been declared, one after the other
pub open spec fn after_gates(
    s: FabricState,
    args: Seq<Seq<ResultId>>,
    functions: Seq<GateFunction>,
    count: int,
) -> FabricState
    decreases count,
{
    if count <= 0 {
        s
    } else {
        after_gates(s, args, functions, count - 1).with_gate(
            args[count - 1],
            functions[count - 1],
        )
    }
}

/// Gates that are declared one after the other follow the state in which the
/// first is declared
pub proof fn lemma_gates_follow(
    s: FabricState,
    args: Seq<Seq<ResultId>>,
    functions: Seq<GateFunction>,
    count: int,
)
    requires
        s.bounded(),
        s.quiet_ahead(),
        s.has_room(count),
        0 <= count,
    ensures
        after_gates(s, args, functions, count).follows(s, count, count),
    decreases count,
{
    if count > 0 {
        let before = after_gates(s, args, functions, count - 1);
        lemma_gates_follow(s, args, functions, count - 1);
        lemma_gate_follows(before, args[count - 1], functions[count - 1]);
        lemma_follows_transitive(
            s,
            before,
            after_gates(s, args, functions, count),
            count - 1,
            count - 1,
            1,
            1,
        );
    }
}

/// The result of each of a list of gates that are declared one after the
/// other is the value of its function on the values of its arguments, once the
/// party has settled and the arguments are resident
pub proof fn lemma_gates_settled(
    course: Course,
    from_peer: Seq<OutboundView>,
    args: Seq<Seq<ResultId>>,
    functions: Seq<GateFunction>,
    count: int,
    index: int,
    values: Seq<Value>,
    value: Value,
)
    requires
        course.proceeds(from_peer, count),
        0 <= index < count,
        course.declared.extends(after_gates(course.before, args, functions, count)),
        values.len() == args[index].len(),
        forall|j: int|
            0 <= j < args[index].len() ==> (#[trigger] args[index][j]) < course.before.next_result_id
                + index,
        forall|j: int|
            0 <= j < args[index].len() ==> course.settled.results.dom().contains(
                #[trigger] args[index][j] as int,
            ) && course.settled.results[args[index][j] as int] == values[j],
        functions[index].eval_spec(values) == Some(value),
    ensures
        course.settled.results.dom().contains(course.before.next_result_id + index),
        course.settled.results[course.before.next_result_id + index] == value,
{
    let s = course.before;
    let before = after_gates(s, args, functions, index);
    assert(s.bounded() && s.quiet_ahead() && s.has_room(count)) by {
        reveal(Course::proceeds);
    }
    lemma_gates_follow(s, args, functions, index);
    lemma_gates_extended(s, args, functions, count, index + 1, course.declared);
    lemma_proceeds_at(course, from_peer, count, before, index, index, 1);
    lemma_gate_settled(
        course.at(before),
        from_peer,
        1,
        args[index],
        functions[index],
        values,
        value,
    );
}

/// What extends a list of gates extends each beginning of the list
proof fn lemma_gates_extended(
    s: FabricState,
    args: Seq<Seq<ResultId>>,
    functions: Seq<GateFunction>,
    count: int,
    shorter: int,
    declared: FabricState,
)
    requires
        s.bounded(),
        s.quiet_ahead(),
        s.has_room(count),
        0 <= shorter <= count,
        declared.extends(after_gates(s, args, functions, count)),
    ensures
        declared.extends(after_gates(s, args, functions, shorter)),
    decreases count - shorter,
{
    if shorter < count {
        lemma_gates_extended(s, args, functions, count, shorter + 1, declared);
        lemma_gates_follow(s, args, functions, shorter);
        lemma_gate_follows(
            after_gates(s, args, functions, shorter),
            args[shorter],
            functions[shorter],
        );
        lemma_extends_transitive(
            after_gates(s, args, functions, shorter),
            after_gates(s, args, functions, shorter + 1),
            declared,
        );
    }
}

/// Once a party has settled, it holds the sum of two authenticated scalars
/// under the three results of their addition
pub proof fn lemma_sum_held(
    course: Course,
    from_peer: Seq<OutboundView>,
    a: AuthenticatedIds,
    b: AuthenticatedIds,
    a_part: ScalarPart,
    b_part: ScalarPart,
)
    requires
        course.proceeds(from_peer, 3),
        course.declared.extends(course.before.auth_sum(a, b)),
        allocated(course, a),
        allocated(course, b),
        part_held(course, a, a_part),
        part_held(course, b, b_part),
    ensures
        part_held(
            course,
            AuthenticatedIds {
                share: course.before.next_result_id as usize,
                mac: (course.before.next_result_id + 1) as usize,
                public_modifier: (course.before.next_result_id + 2) as usize,
            },
            a_part.plus(b_part),
        ),
{
    let n = course.before.next_result_id;
    let args = seq![
        seq![a.share, b.share],
        seq![a.mac, b.mac],
        seq![a.public_modifier, b.public_modifier],
    ];
    let functions = seq![GateFunction::Add, GateFunction::Add, GateFunction::Add];
    assert(0 <= n && n + 3 <= usize::MAX) by {
        reveal(Course::proceeds);
    }
    assert(after_gates(course.before, args, functions, 3) == course.before.auth_sum(a, b)) by {
        reveal_with_fuel(after_gates, 4);
    }
    lemma_gates_settled(
        course,
        from_peer,
        args,
        functions,
        3,
        0,
        seq![Value::Scalar(a_part.share), Value::Scalar(b_part.share)],
        Value::Scalar(a_part.share.add_spec(b_part.share)),
    );
    lemma_gates_settled(
        course,
        from_peer,
        args,
        functions,
        3,
        1,
        seq![Value::Scalar(a_part.mac), Value::Scalar(b_part.mac)],
        Value::Scalar(a_part.mac.add_spec(b_part.mac)),
    );
    lemma_gates_settled(
        course,
        from_peer,
        args,
        functions,
        3,
        2,
        seq![Value::Scalar(a_part.public_modifier), Value::Scalar(b_part.public_modifier)],
        Value::Scalar(a_part.public_modifier.add_spec(b_part.public_modifier)),
    );
}

/// Once a party has settled, it holds the sum of an authenticated scalar and
/// a public constant under the two results of their addition and the MAC of
/// the scalar
pub proof fn lemma_plus_constant_held(
    course: Course,
    from_peer: Seq<OutboundView>,
    a: AuthenticatedIds,
    constant: Scalar,
    a_part: ScalarPart,
)
    requires
        course.proceeds(from_peer, 2),
        course.declared.extends(course.before.auth_plus_constant(a, Constant::Scalar(constant))),
        allocated(course, a),
        part_held(course, a, a_part),
    ensures
        part_held(
            course,
            AuthenticatedIds {
                share: course.before.next_result_id as usize,
                mac: a.mac,
                public_modifier: (course.before.next_result_id + 1) as usize,
            },
            a_part.plus_public(course.before.party_id, constant),
        ),
{
    let n = course.before.next_result_id;
    let c = Constant::Scalar(constant);
    let first = if course.before.party_id == PARTY0 {
        GateFunction::AddConstant(c)
    } else {
        GateFunction::Pass
    };
    let args = seq![seq![a.share], seq![a.public_modifier]];
    let functions = seq![first, GateFunction::SubConstant(c)];
    assert(0 <= n && n + 2 <= usize::MAX) by {
        reveal(Course::proceeds);
    }
    assert(after_gates(course.before, args, functions, 2) == course.before.auth_plus_constant(
        a,
        c,
    )) by {
        reveal_with_fuel(after_gates, 3);
    }
    lemma_gates_settled(
        course,
        from_peer,
        args,
        functions,
        2,
        0,
        seq![Value::Scalar(a_part.share)],
        Value::Scalar(a_part.plus_public(course.before.party_id, constant).share),
    );
    lemma_gates_settled(
        course,
        from_peer,
        args,
        functions,
        2,
        1,
        seq![Value::Scalar(a_part.public_modifier)],
        Value::Scalar(a_part.public_modifier.sub_spec(constant)),
    );
}

/// Once a party has settled, it holds the difference of two authenticated
/// scalars under the three results of their subtraction
pub proof fn lemma_difference_held(
    course: Course,
    from_peer: Seq<OutboundView>,
    a: AuthenticatedIds,
    b: AuthenticatedIds,
    a_part: ScalarPart,
    b_part: ScalarPart,
)
    requires
        course.proceeds(from_peer, 3),
        course.declared.extends(course.before.auth_difference(a, b)),
        allocated(course, a),
        allocated(course, b),
        part_held(course, a, a_part),
        part_held(course, b, b_part),
    ensures
        part_held(
            course,
            AuthenticatedIds {
                share: course.before.next_result_id as usize,
                mac: (course.before.next_result_id + 1) as usize,
                public_modifier: (course.before.next_result_id + 2) as usize,
            },
            a_part.minus(b_part),
        ),
{
    let n = course.before.next_result_id;
    let args = seq![
        seq![a.share, b.share],
        seq![a.mac, b.mac],
        seq![a.public_modifier, b.public_modifier],
    ];
    let functions = seq![GateFunction::Sub, GateFunction::Sub, GateFunction::Sub];
    assert(0 <= n && n + 3 <= usize::MAX) by {
        reveal(Course::proceeds);
    }
    assert(after_gates(course.before, args, functions, 3) == course.before.auth_difference(a, b))
        by {
        reveal_with_fuel(after_gates, 4);
    }
    lemma_gates_settled(
        course,
        from_peer,
        args,
        functions,
        3,
        0,
        seq![Value::Scalar(a_part.share), Value::Scalar(b_part.share)],
        Value::Scalar(a_part.share.sub_spec(b_part.share)),
    );
    lemma_gates_settled(
        course,
        from_peer,
        args,
        functions,
        3,
        1,
        seq![Value::Scalar(a_part.mac), Value::Scalar(b_part.mac)],
        Value::Scalar(a_part.mac.sub_spec(b_part.mac)),
    );
    lemma_gates_settled(
        course,
        from_peer,
        args,
        functions,
        3,
        2,
        seq![Value::Scalar(a_part.public_modifier), Value::Scalar(b_part.public_modifier)],
        Value::Scalar(a_part.public_modifier.sub_spec(b_part.public_modifier)),
    );
}

/// Once a party has settled, it holds an authenticated scalar masked by
/// another under the two results of the masking and the public modifier of
/// the first
pub proof fn lemma_masked_held(
    course: Course,
    from_peer: Seq<OutboundView>,
    a: AuthenticatedIds,
    b: AuthenticatedIds,
    a_part: ScalarPart,
    b_part: ScalarPart,
)
    requires
        course.proceeds(from_peer, 2),
        course.declared.extends(course.before.auth_masked(a, b)),
        allocated(course, a),
        allocated(course, b),
        part_held(course, a, a_part),
        part_held(course, b, b_part),
    ensures
        part_held(
            course,
            AuthenticatedIds {
                share: course.before.next_result_id as usize,
                mac: (course.before.next_result_id + 1) as usize,
                public_modifier: a.public_modifier,
            },
            a_part.masked_by(b_part),
        ),
{
    let n = course.before.next_result_id;
    let args = seq![seq![a.share, b.share], seq![a.mac, b.mac]];
    let functions = seq![GateFunction::Sub, GateFunction::Sub];
    assert(0 <= n && n + 2 <= usize::MAX) by {
        reveal(Course::proceeds);
    }
    assert(after_gates(course.before, args, functions, 2) == course.before.auth_masked(a, b))
        by {
        reveal_with_fuel(after_gates, 3);
    }
    lemma_gates_settled(
        course,
        from_peer,
        args,
        functions,
        2,
        0,
        seq![Value::Scalar(a_part.share), Value::Scalar(b_part.share)],
        Value::Scalar(a_part.share.sub_spec(b_part.share)),
    );
    lemma_gates_settled(
        course,
        from_peer,
        args,
        functions,
        2,
        1,
        seq![Value::Scalar(a_part.mac), Value::Scalar(b_part.mac)],
        Value::Scalar(a_part.mac.sub_spec(b_part.mac)),
    );
}

/// Once a party has settled, it holds the negation of an authenticated
/// scalar under the two results of the negation and the public modifier of
/// the scalar
pub proof fn lemma_negation_held(
    course: Course,
    from_peer: Seq<OutboundView>,
    a: AuthenticatedIds,
    a_part: ScalarPart,
)
    requires
        course.proceeds(from_peer, 2),
        course.declared.extends(course.before.auth_negation(a)),
        allocated(course, a),
        part_held(course, a, a_part),
    ensures
        part_held(
            course,
            AuthenticatedIds {
                share: course.before.next_result_id as usize,
                mac: (course.before.next_result_id + 1) as usize,
                public_modifier: a.public_modifier,
            },
            a_part.negated(),
        ),
{
    let n = course.before.next_result_id;
    let args = seq![seq![a.share], seq![a.mac]];
    let functions = seq![GateFunction::Neg, GateFunction::Neg];
    assert(0 <= n && n + 2 <= usize::MAX) by {
        reveal(Course::proceeds);
    }
    assert(after_gates(course.before, args, functions, 2) == course.before.auth_negation(a)) by {
        reveal_with_fuel(after_gates, 3);
    }
    lemma_gates_settled(
        course,
        from_peer,
        args,
        functions,
        2,
        0,
        seq![Value::Scalar(a_part.share)],
        Value::Scalar(a_part.share.neg_spec()),
    );
    lemma_gates_settled(
        course,
        from_peer,
        args,
        functions,
        2,
        1,
        seq![Value::Scalar(a_part.mac)],
        Value::Scalar(a_part.mac.neg_spec()),
    );
}

/// Once a party has settled, it holds the difference of an authenticated
/// scalar and a public constant under the two results of their subtraction
/// and the MAC of the scalar
pub proof fn lemma_minus_constant_held(
    course: Course,
    from_peer: Seq<OutboundView>,
    a: AuthenticatedIds,
    constant: Scalar,
    a_part: ScalarPart,
)
    requires
        course.proceeds(from_peer, 2),
        course.declared.extends(course.before.auth_minus_constant(a, Constant::Scalar(constant))),
        allocated(course, a),
        part_held(course, a, a_part),
    ensures
        part_held(
            course,
            AuthenticatedIds {
                share: course.before.next_result_id as usize,
                mac: a.mac,
                public_modifier: (course.before.next_result_id + 1) as usize,
            },
            a_part.minus_public(course.before.party_id, constant),
        ),
{
    let n = course.before.next_result_id;
    let c = Constant::Scalar(constant);
    let first = if course.before.party_id == PARTY0 {
        GateFunction::SubConstant(c)
    } else {
        GateFunction::Pass
    };
    let args = seq![seq![a.share], seq![a.public_modifier]];
    let functions = seq![first, GateFunction::AddConstant(c)];
    assert(0 <= n && n + 2 <= usize::MAX) by {
        reveal(Course::proceeds);
    }
    assert(after_gates(course.before, args, functions, 2) == course.before.auth_minus_constant(
        a,
        c,
    )) by {
        reveal_with_fuel(after_gates, 3);
    }
    lemma_gates_settled(
        course,
        from_peer,
        args,
        functions,
        2,
        0,
        seq![Value::Scalar(a_part.share)],
        Value::Scalar(a_part.minus_public(course.before.party_id, constant).share),
    );
    lemma_gates_settled(
        course,
        from_peer,
        args,
        functions,
        2,
        1,
        seq![Value::Scalar(a_part.public_modifier)],
        Value::Scalar(a_part.public_modifier.add_spec(constant)),
    );
}

/// Once a party has settled, it holds the product of an authenticated scalar
/// and a public scalar under the three results of their multiplication
pub proof fn lemma_times_public_held(
    course: Course,
    from_peer: Seq<OutboundView>,
    a: AuthenticatedIds,
    public: ResultId,
    a_part: ScalarPart,
    factor: Scalar,
)
    requires
        course.proceeds(from_peer, 3),
        course.declared.extends(course.before.auth_times_public(a, public)),
        allocated(course, a),
        part_held(course, a, a_part),
        public < course.before.next_result_id,
        course.settled.results.dom().contains(public as int),
        course.settled.results[public as int] == Value::Scalar(factor),
    ensures
        part_held(
            course,
            AuthenticatedIds {
                share: course.before.next_result_id as usize,
                mac: (course.before.next_result_id + 1) as usize,
                public_modifier: (course.before.next_result_id + 2) as usize,
            },
            a_part.times(factor),
        ),
{
    let n = course.before.next_result_id;
    let args = seq![seq![public, a.share], seq![public, a.mac], seq![public, a.public_modifier]];
    let functions = seq![GateFunction::Mul, GateFunction::Mul, GateFunction::Mul];
    assert(0 <= n && n + 3 <= usize::MAX) by {
        reveal(Course::proceeds);
    }
    assert(after_gates(course.before, args, functions, 3) == course.before.auth_times_public(
        a,
        public,
    )) by {
        reveal_with_fuel(after_gates, 4);
    }
    lemma_gates_settled(
        course,
        from_peer,
        args,
        functions,
        3,
        0,
        seq![Value::Scalar(factor), Value::Scalar(a_part.share)],
        Value::Scalar(factor.mul_spec(a_part.share)),
    );
    lemma_gates_settled(
        course,
        from_peer,
        args,
        functions,
        3,
        1,
        seq![Value::Scalar(factor), Value::Scalar(a_part.mac)],
        Value::Scalar(factor.mul_spec(a_part.mac)),
    );
    lemma_gates_settled(
        course,
        from_peer,
        args,
        functions,
        3,
        2,
        seq![Value::Scalar(factor), Value::Scalar(a_part.public_modifier)],
        Value::Scalar(factor.mul_spec(a_part.public_modifier)),
    );
}

/// Once a party has settled, it holds the sum of an authenticated scalar and
/// a public result under the two results of their addition and the MAC of the
/// scalar
pub proof fn lemma_plus_public_held(
    course: Course,
    from_peer: Seq<OutboundView>,
    a: AuthenticatedIds,
    public: ResultId,
    a_part: ScalarPart,
    value: Scalar,
)
    requires
        course.proceeds(from_peer, 2),
        course.declared.extends(course.before.auth_plus_public(a, public)),
        allocated(course, a),
        part_held(course, a, a_part),
        public < course.before.next_result_id,
        course.settled.results.dom().contains(public as int),
        course.settled.results[public as int] == Value::Scalar(value),
    ensures
        part_held(
            course,
            AuthenticatedIds {
                share: course.before.next_result_id as usize,
                mac: a.mac,
                public_modifier: (course.before.next_result_id + 1) as usize,
            },
            a_part.plus_public(course.before.party_id, value),
        ),
{
    let n = course.before.next_result_id;
    let party_id = course.before.party_id;
    assert(0 <= n && n + 2 <= usize::MAX) by {
        reveal(Course::proceeds);
    }
    if party_id == PARTY0 {
        let args = seq![seq![a.share, public], seq![a.public_modifier, public]];
        let functions = seq![GateFunction::AddPublic { party_id }, GateFunction::Sub];
        assert(after_gates(course.before, args, functions, 2) == course.before.auth_plus_public(
            a,
            public,
        )) by {
            reveal_with_fuel(after_gates, 3);
        }
        lemma_gates_settled(
            course,
            from_peer,
            args,
            functions,
            2,
            0,
            seq![Value::Scalar(a_part.share), Value::Scalar(value)],
            Value::Scalar(a_part.share.add_spec(value)),
        );
        lemma_gates_settled(
            course,
            from_peer,
            args,
            functions,
            2,
            1,
            seq![Value::Scalar(a_part.public_modifier), Value::Scalar(value)],
            Value::Scalar(a_part.public_modifier.sub_spec(value)),
        );
    } else {
        let args = seq![seq![a.share], seq![a.public_modifier, public]];
        let functions = seq![GateFunction::Pass, GateFunction::Sub];
        assert(after_gates(course.before, args, functions, 2) == course.before.auth_plus_public(
            a,
            public,
        )) by {
            reveal_with_fuel(after_gates, 3);
        }
        lemma_gates_settled(
            course,
            from_peer,
            args,
            functions,
            2,
            0,
            seq![Value::Scalar(a_part.share)],
            Value::Scalar(a_part.share),
        );
        lemma_gates_settled(
            course,
            from_peer,
            args,
            functions,
            2,
            1,
            seq![Value::Scalar(a_part.public_modifier), Value::Scalar(value)],
            Value::Scalar(a_part.public_modifier.sub_spec(value)),
        );
    }
}

/// Each of the operations that exchange nothing follows the state in
/// which it is declared
pub proof fn lemma_local_graphs(
    s: FabricState,
    a: AuthenticatedIds,
    b: AuthenticatedIds,
    public: ResultId,
)
    requires
        s.bounded(),
        s.quiet_ahead(),
        s.has_room(3),
    ensures
        s.auth_sum(a, b).follows(s, 3, 3),
        s.auth_masked(a, b).follows(s, 2, 2),
        s.auth_times_public(a, public).follows(s, 3, 3),
        s.auth_plus_public(a, public).follows(s, 2, 2),
{
    let add = seq![GateFunction::Add, GateFunction::Add, GateFunction::Add];
    let sub = seq![GateFunction::Sub, GateFunction::Sub];
    let mul = seq![GateFunction::Mul, GateFunction::Mul, GateFunction::Mul];
    let sums = seq![
        seq![a.share, b.share],
        seq![a.mac, b.mac],
        seq![a.public_modifier, b.public_modifier],
    ];
    let differences = seq![seq![a.share, b.share], seq![a.mac, b.mac]];
    let products = seq![seq![public, a.share], seq![public, a.mac], seq![public, a.public_modifier]];
    let shifts = if s.party_id == PARTY0 {
        seq![seq![a.share, public], seq![a.public_modifier, public]]
    } else {
        seq![seq![a.share], seq![a.public_modifier, public]]
    };
    let shift = if s.party_id == PARTY0 {
        seq![GateFunction::AddPublic { party_id: s.party_id }, GateFunction::Sub]
    } else {
        seq![GateFunction::Pass, GateFunction::Sub]
    };
    assert(after_gates(s, sums, add, 3) == s.auth_sum(a, b)) by {
        reveal_with_fuel(after_gates, 4);
    }
    assert(after_gates(s, differences, sub, 2) == s.auth_masked(a, b)) by {
        reveal_with_fuel(after_gates, 3);
    }
    assert(after_gates(s, products, mul, 3) == s.auth_times_public(a, public)) by {
        reveal_with_fuel(after_gates, 4);
    }
    assert(after_gates(s, shifts, shift, 2) == s.auth_plus_public(a, public)) by {
        reveal_with_fuel(after_gates, 3);
    }
    lemma_gates_follow(s, sums, add, 3);
    lemma_gates_follow(s, differences, sub, 2);
    lemma_gates_follow(s, products, mul, 3);
    lemma_gates_follow(s, shifts, shift, 2);
}

} // verus!
