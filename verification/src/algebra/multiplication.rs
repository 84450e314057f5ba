//! The multiplication of two shared scalars, followed through the graphs of
//! both parties: the masked operands are opened, and what each party makes of
//! them and of its share of a Beaver triple is its share of the product

use vstd::prelude::*;

use crate::algebra::openings::lemma_gate_follows;
use crate::algebra::openings::lemma_gate_settled;
use crate::algebra::openings::lemma_opened_graph;
use crate::algebra::openings::lemma_opening;
use crate::algebra::scalar::Scalar;
use crate::algebra::spdz::lemma_beaver_product;
use crate::algebra::spdz::opened;
use crate::fabric::gate::GateFunction;
use crate::fabric::parties::lemma_declarations_follow;
use crate::fabric::parties::lemma_paired_at;
use crate::fabric::parties::lemma_proceeds_at;
use crate::fabric::parties::paired;
use crate::fabric::parties::Course;
use crate::fabric::parties::lemma_extends_transitive;
use crate::fabric::parties::lemma_follows_transitive;
use crate::fabric::result::ResultId;
use crate::fabric::result::Value;
use crate::fabric::FabricState;
use crate::fabric::OperationType;
use crate::network::OutboundView;
use crate::PARTY0;

verus! {

/// The number of steps in which a Beaver multiplication is declared, after
/// the shares of the triple have been allocated
pub open spec fn beaver_steps() -> int {
    10
}

/// The state after the shares of the Beaver triple have been allocated and
/// the first `step` steps of the multiplication have been declared
pub open spec fn beaver_step(s: FabricState, lhs: ResultId, rhs: ResultId, step: int) -> FabricState
    decreases step,
{
    let n = s.next_result_id;
    let a = n as usize;
    let b = (n + 1) as usize;
    let c = (n + 2) as usize;
    let d = (n + 7) as usize;
    let e = (n + 10) as usize;
    if step <= 0 {
        s.with_beaver_triple()
    } else {
        let before = beaver_step(s, lhs, rhs, step - 1);
        if step == 1 {
            before.with_gate(seq![lhs, a], GateFunction::Sub)
        } else if step == 2 {
            before.with_gate(seq![rhs, b], GateFunction::Sub)
        } else if step == 3 {
            before.opened((n + 3) as usize)
        } else if step == 4 {
            before.opened((n + 4) as usize)
        } else if step == 5 {
            before.with_gate(seq![d, b], GateFunction::Mul)
        } else if step == 6 {
            before.with_gate(seq![e, a], GateFunction::Mul)
        } else if step == 7 {
            before.with_gate(seq![(n + 11) as usize, (n + 12) as usize], GateFunction::Add)
        } else if step == 8 {
            before.with_gate(seq![(n + 13) as usize, c], GateFunction::Add)
        } else if step == 9 {
            before.with_gate(seq![d, e], GateFunction::Mul)
        } else {
            before.with_gate(
                seq![(n + 14) as usize, (n + 15) as usize],
                GateFunction::AddPublic { party_id: s.party_id },
            )
        }
    }
}

/// The number of results that have been allocated after a step
pub open spec fn beaver_ids(step: int) -> int {
    if step <= 0 {
        3
    } else if step <= 2 {
        3 + step
    } else if step == 3 {
        8
    } else {
        7 + step
    }
}

/// The number of operations that have been declared after a step
pub open spec fn beaver_ops(step: int) -> int {
    if step <= 0 {
        0
    } else if step <= 2 {
        step
    } else if step == 3 {
        4
    } else {
        2 + step
    }
}

/// Each step of a Beaver multiplication follows the one before, and the last
/// is the multiplication
pub proof fn lemma_beaver_step(s: FabricState, lhs: ResultId, rhs: ResultId, step: int)
    requires
        s.bounded(),
        s.quiet_ahead(),
        s.has_room(17),
        0 <= step <= beaver_steps(),
    ensures
        beaver_step(s, lhs, rhs, step).follows(s, beaver_ids(step), beaver_ops(step)),
        step > 0 ==> beaver_step(s, lhs, rhs, step).extends(beaver_step(s, lhs, rhs, step - 1)),
        step == beaver_steps() ==> beaver_step(s, lhs, rhs, step) == s.beaver_mul(lhs, rhs),
    decreases step,
{
    let n = s.next_result_id;
    let a = n as usize;
    let b = (n + 1) as usize;
    let c = (n + 2) as usize;
    let d = (n + 7) as usize;
    let e = (n + 10) as usize;
    if step == 0 {
        reveal(FabricState::with_beaver_triple);
        let unit = Value::Bytes(Seq::empty());
        let gate = OperationType::Gate { function: GateFunction::Add };
        let triple = s.triples[0];
        let t0 = s.without_triple();
        assert(t0.follows(s, 0, 0));
        let t1 = t0.allocate(Value::Scalar(triple.0));
        lemma_declarations_follow(t0, Value::Scalar(triple.0), unit, Seq::empty(), 1, gate);
        lemma_follows_transitive(s, t0, t1, 0, 0, 1, 0);
        let t2 = t1.allocate(Value::Scalar(triple.1));
        lemma_declarations_follow(t1, Value::Scalar(triple.1), unit, Seq::empty(), 1, gate);
        lemma_follows_transitive(s, t1, t2, 1, 0, 1, 0);
        let t3 = t2.allocate(Value::Scalar(triple.2));
        lemma_declarations_follow(t2, Value::Scalar(triple.2), unit, Seq::empty(), 1, gate);
        lemma_follows_transitive(s, t2, t3, 2, 0, 1, 0);
    } else {
        let before = beaver_step(s, lhs, rhs, step - 1);
        let after = beaver_step(s, lhs, rhs, step);
        lemma_beaver_step(s, lhs, rhs, step - 1);
        if step == 1 {
            lemma_gate_follows(before, seq![lhs, a], GateFunction::Sub);
        } else if step == 2 {
            lemma_gate_follows(before, seq![rhs, b], GateFunction::Sub);
        } else if step == 3 {
            lemma_opened_graph(before, (n + 3) as usize);
        } else if step == 4 {
            lemma_opened_graph(before, (n + 4) as usize);
        } else if step == 5 {
            lemma_gate_follows(before, seq![d, b], GateFunction::Mul);
        } else if step == 6 {
            lemma_gate_follows(before, seq![e, a], GateFunction::Mul);
        } else if step == 7 {
            lemma_gate_follows(
                before,
                seq![(n + 11) as usize, (n + 12) as usize],
                GateFunction::Add,
            );
        } else if step == 8 {
            lemma_gate_follows(before, seq![(n + 13) as usize, c], GateFunction::Add);
        } else if step == 9 {
            lemma_gate_follows(before, seq![d, e], GateFunction::Mul);
        } else {
            lemma_gate_follows(
                before,
                seq![(n + 14) as usize, (n + 15) as usize],
                GateFunction::AddPublic { party_id: s.party_id },
            );
        }
        lemma_follows_transitive(
            s,
            before,
            after,
            beaver_ids(step - 1),
            beaver_ops(step - 1),
            beaver_ids(step) - beaver_ids(step - 1),
            beaver_ops(step) - beaver_ops(step - 1),
        );
        if step == beaver_steps() {
            lemma_beaver_unfolded(s, lhs, rhs);
        }
    }
}

/// The multiplication is the last of its steps
proof fn lemma_beaver_unfolded(s: FabricState, lhs: ResultId, rhs: ResultId)
    ensures
        beaver_step(s, lhs, rhs, beaver_steps()) == s.beaver_mul(lhs, rhs),
{
    reveal(FabricState::beaver_mul);
    reveal_with_fuel(beaver_step, 12);
}

/// What extends the multiplication extends each of its steps
pub proof fn lemma_beaver_step_extended(
    s: FabricState,
    lhs: ResultId,
    rhs: ResultId,
    declared: FabricState,
    step: int,
)
    requires
        s.bounded(),
        s.quiet_ahead(),
        s.has_room(17),
        0 <= step <= beaver_steps(),
        declared.extends(s.beaver_mul(lhs, rhs)),
    ensures
        declared.extends(beaver_step(s, lhs, rhs, step)),
    decreases beaver_steps() - step,
{
    lemma_beaver_step(s, lhs, rhs, beaver_steps());
    if step < beaver_steps() {
        lemma_beaver_step_extended(s, lhs, rhs, declared, step + 1);
        lemma_beaver_step(s, lhs, rhs, step + 1);
        lemma_extends_transitive(
            beaver_step(s, lhs, rhs, step),
            beaver_step(s, lhs, rhs, step + 1),
            declared,
        );
    }
}

/// The share of a product that a party makes of the opened masked operands
/// `d` and `e` and of its share `(a, b, c)` of the Beaver triple: the first
/// party's is `d b + e a + c + d e`, the other's is `d b + e a + c`
pub open spec fn product_share(
    party_id: u64,
    d: Scalar,
    e: Scalar,
    triple: (Scalar, Scalar, Scalar),
) -> Scalar {
    let linear = d.mul_spec(triple.1).add_spec(e.mul_spec(triple.0)).add_spec(triple.2);
    if party_id == PARTY0 {
        linear.add_spec(d.mul_spec(e))
    } else {
        linear
    }
}

/// The result of a gate that is a step of the multiplication is the value
/// of its function on the values of its arguments, once the party has
/// settled and the arguments are resident
proof fn lemma_beaver_gate(
    course: Course,
    from_peer: Seq<OutboundView>,
    lhs: ResultId,
    rhs: ResultId,
    step: int,
    args: Seq<ResultId>,
    function: GateFunction,
    values: Seq<Value>,
    value: Value,
)
    requires
        course.proceeds(from_peer, 17),
        course.declared.extends(course.before.beaver_mul(lhs, rhs)),
        1 <= step <= beaver_steps(),
        beaver_step(course.before, lhs, rhs, step) == beaver_step(
            course.before,
            lhs,
            rhs,
            step - 1,
        ).with_gate(args, function),
        values.len() == args.len(),
        forall|j: int|
            0 <= j < args.len() ==> (#[trigger] args[j]) < course.before.next_result_id
                + beaver_ids(step - 1),
        forall|j: int|
            0 <= j < args.len() ==> course.settled.results.dom().contains(
                #[trigger] args[j] as int,
            ) && course.settled.results[args[j] as int] == values[j],
        function.eval_spec(values) == Some(value),
    ensures
        course.settled.results.dom().contains(course.before.next_result_id + beaver_ids(step - 1)),
        course.settled.results[course.before.next_result_id + beaver_ids(step - 1)] == value,
{
    let s = course.before;
    let before = beaver_step(s, lhs, rhs, step - 1);
    assert(s.bounded() && s.quiet_ahead() && s.has_room(17)) by {
        reveal(Course::proceeds);
    }
    lemma_beaver_step(s, lhs, rhs, step - 1);
    lemma_beaver_step_extended(s, lhs, rhs, course.declared, step);
    lemma_proceeds_at(
        course,
        from_peer,
        17,
        before,
        beaver_ids(step - 1),
        beaver_ops(step - 1),
        1,
    );
    lemma_gate_settled(course.at(before), from_peer, 1, args, function, values, value);
}

/// Once a party has settled, it holds its share of the triple, and its
/// operands less its shares of the first two values of the triple
pub proof fn lemma_beaver_masked(
    course: Course,
    from_peer: Seq<OutboundView>,
    lhs: ResultId,
    rhs: ResultId,
    x: Scalar,
    y: Scalar,
)
    requires
        course.proceeds(from_peer, 17),
        course.declared.extends(course.before.beaver_mul(lhs, rhs)),
        lhs < course.before.next_result_id,
        rhs < course.before.next_result_id,
        course.settled.results.dom().contains(lhs as int),
        course.settled.results[lhs as int] == Value::Scalar(x),
        course.settled.results.dom().contains(rhs as int),
        course.settled.results[rhs as int] == Value::Scalar(y),
    ensures
        holds_triple(course),
        course.settled.results.dom().contains(course.before.next_result_id + 3),
        course.settled.results[course.before.next_result_id + 3] == Value::Scalar(
            x.sub_spec(course.before.triples[0].0),
        ),
        course.settled.results.dom().contains(course.before.next_result_id + 4),
        course.settled.results[course.before.next_result_id + 4] == Value::Scalar(
            y.sub_spec(course.before.triples[0].1),
        ),
{
    let s = course.before;
    let n = s.next_result_id;
    let a = n as usize;
    let b = (n + 1) as usize;
    let triple = s.triples[0];
    let t0 = beaver_step(s, lhs, rhs, 0);
    assert(0 <= n && n + 17 <= usize::MAX) by {
        reveal(Course::proceeds);
    }
    assert(holds_triple(course)) by {
        reveal(Course::proceeds);
        reveal(FabricState::with_beaver_triple);
        lemma_beaver_step(s, lhs, rhs, 0);
        lemma_beaver_step_extended(s, lhs, rhs, course.declared, 0);
        assert(t0.results.dom().contains(n) && t0.results[n] == Value::Scalar(triple.0)
            && t0.results.dom().contains(n + 1) && t0.results[n + 1] == Value::Scalar(triple.1)
            && t0.results.dom().contains(n + 2) && t0.results[n + 2] == Value::Scalar(triple.2));
        assert(course.declared.results.dom().contains(n) && course.declared.results.dom().contains(
            n + 1,
        ) && course.declared.results.dom().contains(n + 2));
    }
    lemma_beaver_gate(
        course,
        from_peer,
        lhs,
        rhs,
        1,
        seq![lhs, a],
        GateFunction::Sub,
        seq![Value::Scalar(x), Value::Scalar(triple.0)],
        Value::Scalar(x.sub_spec(triple.0)),
    );
    lemma_beaver_gate(
        course,
        from_peer,
        lhs,
        rhs,
        2,
        seq![rhs, b],
        GateFunction::Sub,
        seq![Value::Scalar(y), Value::Scalar(triple.1)],
        Value::Scalar(y.sub_spec(triple.1)),
    );
}

/// Whether a party that has settled holds its share of the Beaver triple
/// under the first three results of the multiplication
pub open spec fn holds_triple(course: Course) -> bool {
    let n = course.before.next_result_id;
    let triple = course.before.triples[0];
    &&& course.settled.results.dom().contains(n)
    &&& course.settled.results[n] == Value::Scalar(triple.0)
    &&& course.settled.results.dom().contains(n + 1)
    &&& course.settled.results[n + 1] == Value::Scalar(triple.1)
    &&& course.settled.results.dom().contains(n + 2)
    &&& course.settled.results[n + 2] == Value::Scalar(triple.2)
}

/// Once a party has settled and holds the opened masked operands, the last
/// result of the multiplication is its share of the product
pub proof fn lemma_beaver_share(
    course: Course,
    from_peer: Seq<OutboundView>,
    lhs: ResultId,
    rhs: ResultId,
    d: Scalar,
    e: Scalar,
)
    requires
        course.proceeds(from_peer, 17),
        course.declared.extends(course.before.beaver_mul(lhs, rhs)),
        holds_triple(course),
        course.settled.results.dom().contains(course.before.next_result_id + 7),
        course.settled.results[course.before.next_result_id + 7] == Value::Scalar(d),
        course.settled.results.dom().contains(course.before.next_result_id + 10),
        course.settled.results[course.before.next_result_id + 10] == Value::Scalar(e),
    ensures
        course.settled.results.dom().contains(course.before.next_result_id + 16),
        course.settled.results[course.before.next_result_id + 16] == Value::Scalar(
            product_share(course.before.party_id, d, e, course.before.triples[0]),
        ),
{
    let s = course.before;
    let n = s.next_result_id;
    let a = n as usize;
    let b = (n + 1) as usize;
    let c = (n + 2) as usize;
    let dd = (n + 7) as usize;
    let ee = (n + 10) as usize;
    let triple = s.triples[0];
    let db = d.mul_spec(triple.1);
    let ea = e.mul_spec(triple.0);
    let de = d.mul_spec(e);
    assert(0 <= n && n + 17 <= usize::MAX) by {
        reveal(Course::proceeds);
    }
    lemma_beaver_gate(
        course,
        from_peer,
        lhs,
        rhs,
        5,
        seq![dd, b],
        GateFunction::Mul,
        seq![Value::Scalar(d), Value::Scalar(triple.1)],
        Value::Scalar(db),
    );
    lemma_beaver_gate(
        course,
        from_peer,
        lhs,
        rhs,
        6,
        seq![ee, a],
        GateFunction::Mul,
        seq![Value::Scalar(e), Value::Scalar(triple.0)],
        Value::Scalar(ea),
    );
    lemma_beaver_gate(
        course,
        from_peer,
        lhs,
        rhs,
        7,
        seq![(n + 11) as usize, (n + 12) as usize],
        GateFunction::Add,
        seq![Value::Scalar(db), Value::Scalar(ea)],
        Value::Scalar(db.add_spec(ea)),
    );
    lemma_beaver_gate(
        course,
        from_peer,
        lhs,
        rhs,
        8,
        seq![(n + 13) as usize, c],
        GateFunction::Add,
        seq![Value::Scalar(db.add_spec(ea)), Value::Scalar(triple.2)],
        Value::Scalar(db.add_spec(ea).add_spec(triple.2)),
    );
    lemma_beaver_gate(
        course,
        from_peer,
        lhs,
        rhs,
        9,
        seq![dd, ee],
        GateFunction::Mul,
        seq![Value::Scalar(d), Value::Scalar(e)],
        Value::Scalar(de),
    );
    lemma_beaver_gate(
        course,
        from_peer,
        lhs,
        rhs,
        10,
        seq![(n + 14) as usize, (n + 15) as usize],
        GateFunction::AddPublic { party_id: s.party_id },
        seq![Value::Scalar(db.add_spec(ea).add_spec(triple.2)), Value::Scalar(de)],
        Value::Scalar(product_share(s.party_id, d, e, triple)),
    );
}

/// The opening that is a step of the multiplication gives both parties
/// the sum of their shares
proof fn lemma_beaver_opening(
    first: Course,
    second: Course,
    lhs: ResultId,
    rhs: ResultId,
    step: int,
    value: Value,
)
    requires
        paired(first, second, 17),
        first.declared.extends(first.before.beaver_mul(lhs, rhs)),
        second.declared.extends(second.before.beaver_mul(lhs, rhs)),
        step == 3 || step == 4,
        first.settled.results.dom().contains(first.before.next_result_id + step),
        second.settled.results.dom().contains(first.before.next_result_id + step),
        Value::sum(
            first.settled.results[first.before.next_result_id + step],
            second.settled.results[first.before.next_result_id + step],
        ) == Some(value),
    ensures
        first.settled.results.dom().contains(first.before.next_result_id + beaver_ids(step - 1) + 2),
        first.settled.results[first.before.next_result_id + beaver_ids(step - 1) + 2] == value,
        second.settled.results.dom().contains(
            first.before.next_result_id + beaver_ids(step - 1) + 2,
        ),
        second.settled.results[first.before.next_result_id + beaver_ids(step - 1) + 2] == value,
{
    let n = first.before.next_result_id;
    let first_before = beaver_step(first.before, lhs, rhs, step - 1);
    let second_before = beaver_step(second.before, lhs, rhs, step - 1);
    assert(first.before.bounded() && first.before.quiet_ahead() && first.before.has_room(17)
        && second.before.bounded() && second.before.quiet_ahead() && second.before.has_room(17))
        by {
        reveal(Course::proceeds);
    }
    lemma_beaver_step(first.before, lhs, rhs, step - 1);
    lemma_beaver_step(second.before, lhs, rhs, step - 1);
    lemma_beaver_step_extended(first.before, lhs, rhs, first.declared, step);
    lemma_beaver_step_extended(second.before, lhs, rhs, second.declared, step);
    lemma_paired_at(
        first,
        second,
        17,
        first_before,
        second_before,
        beaver_ids(step - 1),
        beaver_ops(step - 1),
        3,
    );
    lemma_opening(first.at(first_before), second.at(second_before), (n + step) as usize, value);
}

/// Multiplying two shared scalars gives the parties shares of the
/// product. Two parties that have allocated as many results multiply the
/// values whose shares they hold under the same identifiers, each with its
/// share of a Beaver triple whose third value is the product of the first
/// two; once each has evaluated its graph and taken in what the other has
/// sent, what the two hold under the last result of the multiplication adds
/// up to the product of the values.
pub proof fn lemma_beaver_multiplication(
    first: Course,
    second: Course,
    lhs: ResultId,
    rhs: ResultId,
    x0: Scalar,
    x1: Scalar,
    y0: Scalar,
    y1: Scalar,
)
    requires
        paired(first, second, 17),
        first.declared.extends(first.before.beaver_mul(lhs, rhs)),
        second.declared.extends(second.before.beaver_mul(lhs, rhs)),
        lhs < first.before.next_result_id,
        rhs < first.before.next_result_id,
        first.settled.results.dom().contains(lhs as int),
        first.settled.results[lhs as int] == Value::Scalar(x0),
        first.settled.results.dom().contains(rhs as int),
        first.settled.results[rhs as int] == Value::Scalar(y0),
        second.settled.results.dom().contains(lhs as int),
        second.settled.results[lhs as int] == Value::Scalar(x1),
        second.settled.results.dom().contains(rhs as int),
        second.settled.results[rhs as int] == Value::Scalar(y1),
        opened(first.before.triples[0].2, second.before.triples[0].2) == opened(
            first.before.triples[0].0,
            second.before.triples[0].0,
        ).mul_spec(opened(first.before.triples[0].1, second.before.triples[0].1)),
    ensures
        first.settled.results.dom().contains(first.before.next_result_id + 16),
        second.settled.results.dom().contains(first.before.next_result_id + 16),
        first.settled.results[first.before.next_result_id + 16] matches Value::Scalar(z0)
            && second.settled.results[first.before.next_result_id + 16] matches Value::Scalar(z1)
            && opened(z0, z1) == opened(x0, x1).mul_spec(opened(y0, y1)),
{
    let mine = first.before.triples[0];
    let theirs = second.before.triples[0];
    let d = opened(x0.sub_spec(mine.0), x1.sub_spec(theirs.0));
    let e = opened(y0.sub_spec(mine.1), y1.sub_spec(theirs.1));
    // Each party masks its shares of the operands
    lemma_beaver_masked(first, second.sent(), lhs, rhs, x0, y0);
    lemma_beaver_masked(second, first.sent(), lhs, rhs, x1, y1);
    // The masked operands are opened, one after the other
    lemma_beaver_opening(first, second, lhs, rhs, 3, Value::Scalar(d));
    lemma_beaver_opening(first, second, lhs, rhs, 4, Value::Scalar(e));
    // Each party makes its share of the product of them
    lemma_beaver_share(first, second.sent(), lhs, rhs, d, e);
    lemma_beaver_share(second, first.sent(), lhs, rhs, d, e);
    lemma_beaver_product(
        x0,
        x1,
        y0,
        y1,
        mine.0,
        theirs.0,
        mine.1,
        theirs.1,
        mine.2,
        theirs.2,
    );
}

/// The product of two shared scalars, opened, is the product of the
/// values. Two parties that have allocated as many results multiply the
/// values whose shares they hold under the same identifiers, each with its
/// share of a Beaver triple whose third value is the product of the first
/// two, and open the product; once each has evaluated its graph and taken in
/// what the other has sent, the opened value of both is the product of the
/// values.
pub proof fn lemma_product_opening(
    first: Course,
    second: Course,
    lhs: ResultId,
    rhs: ResultId,
    x0: Scalar,
    x1: Scalar,
    y0: Scalar,
    y1: Scalar,
)
    requires
        paired(first, second, 20),
        first.declared.extends(
            first.before.beaver_mul(lhs, rhs).opened((first.before.next_result_id + 16) as usize),
        ),
        second.declared.extends(
            second.before.beaver_mul(lhs, rhs).opened((first.before.next_result_id + 16) as usize),
        ),
        lhs < first.before.next_result_id,
        rhs < first.before.next_result_id,
        first.settled.results.dom().contains(lhs as int),
        first.settled.results[lhs as int] == Value::Scalar(x0),
        first.settled.results.dom().contains(rhs as int),
        first.settled.results[rhs as int] == Value::Scalar(y0),
        second.settled.results.dom().contains(lhs as int),
        second.settled.results[lhs as int] == Value::Scalar(x1),
        second.settled.results.dom().contains(rhs as int),
        second.settled.results[rhs as int] == Value::Scalar(y1),
        opened(first.before.triples[0].2, second.before.triples[0].2) == opened(
            first.before.triples[0].0,
            second.before.triples[0].0,
        ).mul_spec(opened(first.before.triples[0].1, second.before.triples[0].1)),
    ensures
        first.settled.results.dom().contains(first.before.next_result_id + 19),
        first.settled.results[first.before.next_result_id + 19] == Value::Scalar(
            opened(x0, x1).mul_spec(opened(y0, y1)),
        ),
        second.settled.results.dom().contains(first.before.next_result_id + 19),
        second.settled.results[first.before.next_result_id + 19] == Value::Scalar(
            opened(x0, x1).mul_spec(opened(y0, y1)),
        ),
{
    let n = first.before.next_result_id;
    let first_product = first.before.beaver_mul(lhs, rhs);
    let second_product = second.before.beaver_mul(lhs, rhs);
    assert(first.before.bounded() && first.before.quiet_ahead() && first.before.has_room(20)
        && second.before.bounded() && second.before.quiet_ahead() && second.before.has_room(20)
        && second.before.next_result_id == n) by {
        reveal(Course::proceeds);
    }
    lemma_beaver_step(first.before, lhs, rhs, beaver_steps());
    lemma_beaver_step(second.before, lhs, rhs, beaver_steps());
    lemma_opened_graph(first_product, (n + 16) as usize);
    lemma_opened_graph(second_product, (n + 16) as usize);
    lemma_extends_transitive(first_product, first_product.opened((n + 16) as usize), first.declared);
    lemma_extends_transitive(
        second_product,
        second_product.opened((n + 16) as usize),
        second.declared,
    );
    lemma_paired_at(first, second, 20, first.before, second.before, 0, 0, 17);
    assert(first.at(first.before) == first && second.at(second.before) == second);
    lemma_beaver_multiplication(first, second, lhs, rhs, x0, x1, y0, y1);
    lemma_paired_at(first, second, 20, first_product, second_product, 17, 12, 3);
    lemma_opening(
        first.at(first_product),
        second.at(second_product),
        (n + 16) as usize,
        Value::Scalar(opened(x0, x1).mul_spec(opened(y0, y1))),
    );
}

} // verus!
