//! The multiplication of two authenticated scalars, followed through the
//! graphs of both parties: what the parties hold under its last three results
//! makes up an authenticated scalar, the product of the values

use vstd::arithmetic::div_mod::lemma_small_mod;
use vstd::prelude::*;

use crate::algebra::authenticated_scalar::AuthenticatedIds;
use crate::algebra::local::allocated;
use crate::algebra::local::lemma_masked_held;
use crate::algebra::local::lemma_local_graphs;
use crate::algebra::local::lemma_plus_public_held;
use crate::algebra::local::lemma_sum_held;
use crate::algebra::local::lemma_times_public_held;
use crate::algebra::local::part_at;
use crate::algebra::local::part_held;
use crate::algebra::local::scalar_at;
use crate::algebra::multiplication::lemma_beaver_multiplication;
use crate::algebra::openings::lemma_gate_settled;
use crate::algebra::openings::lemma_opening;
use crate::algebra::scalar::lemma_modulus_bounds;
use crate::algebra::scalar::scalar_modulus;
use crate::algebra::scalar::Scalar;
use crate::algebra::spdz::authentic;
use crate::algebra::spdz::congruent;
use crate::algebra::spdz::iv;
use crate::algebra::spdz::lemma_authenticated_product;
use crate::algebra::spdz::lemma_operation_views;
use crate::algebra::spdz::opened;
use crate::algebra::spdz::ScalarPart;
use crate::fabric::parties::lemma_paired_at;
use crate::fabric::parties::lemma_proceeds_at;
use crate::fabric::parties::paired;
use crate::fabric::parties::Course;
use crate::fabric::result::Value;
use crate::network::OutboundView;
use crate::PARTY0;
use crate::algebra::multiplication::beaver_steps;
use crate::algebra::multiplication::lemma_beaver_step;
use crate::algebra::openings::lemma_gate_follows;
use crate::algebra::openings::lemma_opened_graph;
use crate::fabric::gate::GateFunction;
use crate::fabric::parties::lemma_extends_transitive;
use crate::fabric::parties::lemma_follows_transitive;
use crate::fabric::result::ResultId;
use crate::fabric::FabricState;
use crate::fabric::RESULT_MAC_KEY;
use crate::fabric::RESULT_ZERO;

verus! {

/// The number of steps in which the multiplication of two authenticated
/// scalars is declared, after the shares of the triple have been allocated
pub open spec fn product_steps() -> int {
    13
}

/// The results of a value of the authenticated triple: its share is one of
/// the first three results, its MAC is the last result of the multiplication
/// of the share by the MAC key, and its public modifier is zero
pub open spec fn triple_ids(n: int, which: int) -> AuthenticatedIds {
    AuthenticatedIds {
        share: (n + which) as usize,
        mac: (n + 19 + 17 * which) as usize,
        public_modifier: RESULT_ZERO,
    }
}

/// The results of an operation that declares a share and a MAC and keeps a
/// public modifier
pub open spec fn pair_at(n: int, public_modifier: ResultId) -> AuthenticatedIds {
    AuthenticatedIds { share: n as usize, mac: (n + 1) as usize, public_modifier }
}

/// The results of an operation that declares a share, a MAC and a public
/// modifier
pub open spec fn three_at(n: int) -> AuthenticatedIds {
    AuthenticatedIds {
        share: n as usize,
        mac: (n + 1) as usize,
        public_modifier: (n + 2) as usize,
    }
}

/// The results of the sum of `d b` and the public `d e`
pub open spec fn shifted_at(n: int) -> AuthenticatedIds {
    AuthenticatedIds {
        share: (n + 68) as usize,
        mac: (n + 66) as usize,
        public_modifier: (n + 69) as usize,
    }
}

/// The state after the shares of the triple have been allocated and the
/// first `step` steps of the multiplication have been declared
pub open spec fn product_step(
    s: FabricState,
    lhs: AuthenticatedIds,
    rhs: AuthenticatedIds,
    step: int,
) -> FabricState
    decreases step,
{
    let n = s.next_result_id;
    let d = (n + 60) as usize;
    let e = (n + 63) as usize;
    let de = (n + 64) as usize;
    if step <= 0 {
        s.with_beaver_triple()
    } else {
        let before = product_step(s, lhs, rhs, step - 1);
        if step <= 3 {
            before.beaver_mul(RESULT_MAC_KEY, (n + step - 1) as usize)
        } else if step == 4 {
            before.auth_masked(lhs, triple_ids(n, 0))
        } else if step == 5 {
            before.auth_masked(rhs, triple_ids(n, 1))
        } else if step == 6 {
            before.opened((n + 54) as usize)
        } else if step == 7 {
            before.opened((n + 56) as usize)
        } else if step == 8 {
            before.with_gate(seq![d, e], GateFunction::Mul)
        } else if step == 9 {
            before.auth_times_public(triple_ids(n, 1), d)
        } else if step == 10 {
            before.auth_plus_public(three_at(n + 65), de)
        } else if step == 11 {
            before.auth_times_public(triple_ids(n, 0), e)
        } else if step == 12 {
            before.auth_sum(shifted_at(n), three_at(n + 70))
        } else {
            before.auth_sum(three_at(n + 73), triple_ids(n, 2))
        }
    }
}

/// The number of results that have been allocated after a step
pub open spec fn product_ids(step: int) -> int {
    if step <= 0 {
        3
    } else if step <= 3 {
        3 + 17 * step
    } else if step == 4 {
        56
    } else if step == 5 {
        58
    } else if step == 6 {
        61
    } else if step == 7 {
        64
    } else if step == 8 {
        65
    } else if step == 9 {
        68
    } else if step == 10 {
        70
    } else if step == 11 {
        73
    } else if step == 12 {
        76
    } else {
        79
    }
}

/// The number of operations that have been declared after a step
pub open spec fn product_ops(step: int) -> int {
    if step <= 0 {
        0
    } else if step <= 3 {
        12 * step
    } else if step == 4 {
        38
    } else if step == 5 {
        40
    } else if step == 6 {
        42
    } else if step == 7 {
        44
    } else if step == 8 {
        45
    } else if step == 9 {
        48
    } else if step == 10 {
        50
    } else if step == 11 {
        53
    } else if step == 12 {
        56
    } else {
        59
    }
}

/// Each step of the multiplication follows the one before
pub proof fn lemma_product_step(
    s: FabricState,
    lhs: AuthenticatedIds,
    rhs: AuthenticatedIds,
    step: int,
)
    requires
        s.bounded(),
        s.quiet_ahead(),
        s.has_room(79),
        0 <= step <= product_steps(),
    ensures
        product_step(s, lhs, rhs, step).follows(s, product_ids(step), product_ops(step)),
        step > 0 ==> product_step(s, lhs, rhs, step).follows(
            product_step(s, lhs, rhs, step - 1),
            product_ids(step) - product_ids(step - 1),
            product_ops(step) - product_ops(step - 1),
        ),
    decreases step,
{
    let n = s.next_result_id;
    let d = (n + 60) as usize;
    let e = (n + 63) as usize;
    let de = (n + 64) as usize;
    if step == 0 {
        lemma_beaver_step(s, 0, 0, 0);
    } else {
        let before = product_step(s, lhs, rhs, step - 1);
        let after = product_step(s, lhs, rhs, step);
        lemma_product_step(s, lhs, rhs, step - 1);
        if step <= 3 {
            lemma_beaver_step(before, RESULT_MAC_KEY, (n + step - 1) as usize, beaver_steps());
        } else if step == 4 {
            lemma_local_graphs(before, lhs, triple_ids(n, 0), 0);
        } else if step == 5 {
            lemma_local_graphs(before, rhs, triple_ids(n, 1), 0);
        } else if step == 6 {
            lemma_opened_graph(before, (n + 54) as usize);
        } else if step == 7 {
            lemma_opened_graph(before, (n + 56) as usize);
        } else if step == 8 {
            lemma_gate_follows(before, seq![d, e], GateFunction::Mul);
        } else if step == 9 {
            lemma_local_graphs(before, triple_ids(n, 1), triple_ids(n, 1), d);
        } else if step == 10 {
            lemma_local_graphs(before, three_at(n + 65), three_at(n + 65), de);
        } else if step == 11 {
            lemma_local_graphs(before, triple_ids(n, 0), triple_ids(n, 0), e);
        } else if step == 12 {
            lemma_local_graphs(before, shifted_at(n), three_at(n + 70), 0);
        } else {
            lemma_local_graphs(before, three_at(n + 73), triple_ids(n, 2), 0);
        }
        lemma_follows_transitive(
            s,
            before,
            after,
            product_ids(step - 1),
            product_ops(step - 1),
            product_ids(step) - product_ids(step - 1),
            product_ops(step) - product_ops(step - 1),
        );
    }
}

/// The multiplication is the last of its steps
pub proof fn lemma_product_unfolded(s: FabricState, lhs: AuthenticatedIds, rhs: AuthenticatedIds)
    ensures
        product_step(s, lhs, rhs, product_steps()) == s.auth_beaver_mul(lhs, rhs),
{
    reveal(FabricState::auth_beaver_mul);
    reveal(FabricState::with_authenticated_triple);
    reveal_with_fuel(product_step, 15);
    let n = s.next_result_id;
    assert(triple_ids(n, 0) == (AuthenticatedIds {
        share: n as usize,
        mac: (n + 19) as usize,
        public_modifier: RESULT_ZERO,
    }));
}

/// What extends the multiplication extends each of its steps
pub proof fn lemma_product_step_extended(
    s: FabricState,
    lhs: AuthenticatedIds,
    rhs: AuthenticatedIds,
    declared: FabricState,
    step: int,
)
    requires
        s.bounded(),
        s.quiet_ahead(),
        s.has_room(79),
        0 <= step <= product_steps(),
        declared.extends(s.auth_beaver_mul(lhs, rhs)),
    ensures
        declared.extends(product_step(s, lhs, rhs, step)),
    decreases product_steps() - step,
{
    lemma_product_unfolded(s, lhs, rhs);
    if step < product_steps() {
        lemma_product_step_extended(s, lhs, rhs, declared, step + 1);
        lemma_product_step(s, lhs, rhs, step + 1);
        lemma_extends_transitive(
            product_step(s, lhs, rhs, step),
            product_step(s, lhs, rhs, step + 1),
            declared,
        );
    }
}

/// A course proceeds from each step of the multiplication, and what it
/// declares extends the step after
proof fn lemma_product_at(
    course: Course,
    from_peer: Seq<OutboundView>,
    lhs: AuthenticatedIds,
    rhs: AuthenticatedIds,
    step: int,
)
    requires
        course.proceeds(from_peer, 79),
        course.declared.extends(course.before.auth_beaver_mul(lhs, rhs)),
        0 <= step < product_steps(),
    ensures
        course.at(product_step(course.before, lhs, rhs, step)).proceeds(
            from_peer,
            79 - product_ids(step),
        ),
        course.declared.extends(product_step(course.before, lhs, rhs, step + 1)),
        product_step(course.before, lhs, rhs, step).next_result_id
            == course.before.next_result_id + product_ids(step),
        product_step(course.before, lhs, rhs, step).party_id == course.before.party_id,
        0 <= course.before.next_result_id,
        course.before.next_result_id + 79 <= usize::MAX,
{
    let s = course.before;
    assert(s.bounded() && s.quiet_ahead() && s.has_room(79)) by {
        reveal(Course::proceeds);
    }
    lemma_product_step(s, lhs, rhs, step);
    lemma_product_step_extended(s, lhs, rhs, course.declared, step + 1);
    lemma_proceeds_at(
        course,
        from_peer,
        79,
        product_step(s, lhs, rhs, step),
        product_ids(step),
        product_ops(step),
        79 - product_ids(step),
    );
}

/// Two courses are paired from each step of the multiplication
proof fn lemma_product_paired_at(
    first: Course,
    second: Course,
    lhs: AuthenticatedIds,
    rhs: AuthenticatedIds,
    step: int,
)
    requires
        paired(first, second, 79),
        first.declared.extends(first.before.auth_beaver_mul(lhs, rhs)),
        second.declared.extends(second.before.auth_beaver_mul(lhs, rhs)),
        0 <= step < product_steps(),
    ensures
        paired(
            first.at(product_step(first.before, lhs, rhs, step)),
            second.at(product_step(second.before, lhs, rhs, step)),
            79 - product_ids(step),
        ),
        first.declared.extends(product_step(first.before, lhs, rhs, step + 1)),
        second.declared.extends(product_step(second.before, lhs, rhs, step + 1)),
        product_step(first.before, lhs, rhs, step).next_result_id == first.before.next_result_id
            + product_ids(step),
        0 <= first.before.next_result_id,
        first.before.next_result_id + 79 <= usize::MAX,
        second.before.next_result_id == first.before.next_result_id,
{
    assert(first.before.bounded() && first.before.quiet_ahead() && first.before.has_room(79)
        && second.before.bounded() && second.before.quiet_ahead() && second.before.has_room(79)
        && second.before.next_result_id == first.before.next_result_id) by {
        reveal(Course::proceeds);
    }
    lemma_product_step(first.before, lhs, rhs, step);
    lemma_product_step(second.before, lhs, rhs, step);
    lemma_product_step_extended(first.before, lhs, rhs, first.declared, step + 1);
    lemma_product_step_extended(second.before, lhs, rhs, second.declared, step + 1);
    lemma_paired_at(
        first,
        second,
        79,
        product_step(first.before, lhs, rhs, step),
        product_step(second.before, lhs, rhs, step),
        product_ids(step),
        product_ops(step),
        79 - product_ids(step),
    );
}

/// A course that proceeds with room to spare proceeds with less
proof fn lemma_less_room(course: Course, from_peer: Seq<OutboundView>, room: int, less: int)
    requires
        course.proceeds(from_peer, room),
        0 <= less <= room,
    ensures
        course.proceeds(from_peer, less),
{
    reveal(Course::proceeds);
}

/// The share that a party holds of each value of the triple is resident
/// under the first three results, once the party has settled
proof fn lemma_triple_shares(
    course: Course,
    from_peer: Seq<OutboundView>,
    lhs: AuthenticatedIds,
    rhs: AuthenticatedIds,
)
    requires
        course.proceeds(from_peer, 79),
        course.declared.extends(course.before.auth_beaver_mul(lhs, rhs)),
    ensures
        ({
            let n = course.before.next_result_id;
            let triple = course.before.triples[0];
            let s = course.settled;
            &&& s.results.dom().contains(n) && s.results[n] == Value::Scalar(triple.0)
            &&& s.results.dom().contains(n + 1) && s.results[n + 1] == Value::Scalar(triple.1)
            &&& s.results.dom().contains(n + 2) && s.results[n + 2] == Value::Scalar(triple.2)
        }),
{
    reveal(Course::proceeds);
    reveal(FabricState::with_beaver_triple);
    let s = course.before;
    let n = s.next_result_id;
    let t0 = product_step(s, lhs, rhs, 0);
    lemma_product_step(s, lhs, rhs, 0);
    lemma_product_step_extended(s, lhs, rhs, course.declared, 0);
    assert(t0.results.dom().contains(n) && t0.results.dom().contains(n + 1)
        && t0.results.dom().contains(n + 2));
    assert(course.declared.results.dom().contains(n) && course.declared.results.dom().contains(
        n + 1,
    ) && course.declared.results.dom().contains(n + 2));
}

/// The triples that are left after the shares of one have been allocated,
/// and after a multiplication, are all but the oldest
pub proof fn lemma_triples_used(s: FabricState, lhs: ResultId, rhs: ResultId)
    ensures
        s.with_beaver_triple().triples == s.triples.skip(1),
        s.beaver_mul(lhs, rhs).triples == s.triples.skip(1),
{
    reveal(FabricState::with_beaver_triple);
    reveal(FabricState::beaver_mul);
    reveal(FabricState::opened);
    assert(s.triples.drop_first() =~= s.triples.skip(1));
}

/// One of the three values of a triple
pub open spec fn component(triple: (Scalar, Scalar, Scalar), which: int) -> Scalar {
    if which == 0 {
        triple.0
    } else if which == 1 {
        triple.1
    } else {
        triple.2
    }
}

/// Whether the shares that two parties hold of a triple are shares of a
/// product and its factors
pub open spec fn multiplies(mine: (Scalar, Scalar, Scalar), theirs: (Scalar, Scalar, Scalar))
    -> bool {
    opened(mine.2, theirs.2) == opened(mine.0, theirs.0).mul_spec(opened(mine.1, theirs.1))
}

/// Whether a party that has settled holds a share of the MAC key
pub open spec fn key_held(course: Course, key: Scalar) -> bool {
    &&& RESULT_MAC_KEY < course.before.next_result_id
    &&& course.settled.results.dom().contains(RESULT_MAC_KEY as int)
    &&& course.settled.results[RESULT_MAC_KEY as int] == Value::Scalar(key)
}

/// Shares of a value, and shares of the product of the value and the MAC
/// key, make up an authenticated scalar with the public modifier zero
pub proof fn lemma_zero_modifier_authentic(
    key0: Scalar,
    key1: Scalar,
    share0: Scalar,
    share1: Scalar,
    mac0: Scalar,
    mac1: Scalar,
)
    requires
        opened(mac0, mac1) == opened(key0, key1).mul_spec(opened(share0, share1)),
    ensures
        authentic(
            key0,
            key1,
            ScalarPart { share: share0, mac: mac0, public_modifier: Scalar::of_nat(0) },
            ScalarPart { share: share1, mac: mac1, public_modifier: Scalar::of_nat(0) },
        ),
        congruent(
            (iv(key0) + iv(key1))
                * iv(Scalar::of_nat(0)),
            0,
        ),
{
    lemma_modulus_bounds();
    let value = opened(share0, share1);
    lemma_operation_views(share0, share1);
    Scalar::lemma_view_of_nat(0);
    lemma_small_mod(value@, scalar_modulus());
    Scalar::lemma_of_nat_view(value);
    assert(value.add_spec(Scalar::of_nat(0)) == value);
    assert((iv(key0) + iv(key1))
        * iv(Scalar::of_nat(0)) == 0) by (nonlinear_arith)
        requires
            iv(Scalar::of_nat(0)) == 0,
    ;
}

/// The MAC of each value of the triple is the product of the MAC key and
/// the value: once the parties have settled, what they hold under the MAC of
/// the value are shares of that product
proof fn lemma_triple_mac(
    first: Course,
    second: Course,
    lhs: AuthenticatedIds,
    rhs: AuthenticatedIds,
    which: int,
    key0: Scalar,
    key1: Scalar,
)
    requires
        paired(first, second, 79),
        first.declared.extends(first.before.auth_beaver_mul(lhs, rhs)),
        second.declared.extends(second.before.auth_beaver_mul(lhs, rhs)),
        0 <= which <= 2,
        key_held(first, key0),
        key_held(second, key1),
        first.before.triples.len() >= 4,
        second.before.triples.len() >= 4,
        multiplies(first.before.triples[which + 1], second.before.triples[which + 1]),
    ensures
        part_held(
            first,
            triple_ids(first.before.next_result_id, which),
            part_at(first.settled, triple_ids(first.before.next_result_id, which)),
        ),
        part_held(
            second,
            triple_ids(first.before.next_result_id, which),
            part_at(second.settled, triple_ids(first.before.next_result_id, which)),
        ),
        part_at(first.settled, triple_ids(first.before.next_result_id, which)).share == component(
            first.before.triples[0],
            which,
        ),
        part_at(second.settled, triple_ids(first.before.next_result_id, which)).share
            == component(second.before.triples[0], which),
        authentic(
            key0,
            key1,
            part_at(first.settled, triple_ids(first.before.next_result_id, which)),
            part_at(second.settled, triple_ids(first.before.next_result_id, which)),
        ),
        part_at(first.settled, triple_ids(first.before.next_result_id, which)).public_modifier
            == Scalar::of_nat(0),
        congruent(
            (iv(key0) + iv(key1))
                * iv(Scalar::of_nat(0)),
            0,
        ),
{
    let n = first.before.next_result_id;
    let first_before = product_step(first.before, lhs, rhs, which);
    let second_before = product_step(second.before, lhs, rhs, which);
    let share0 = component(first.before.triples[0], which);
    let share1 = component(second.before.triples[0], which);
    lemma_product_paired_at(first, second, lhs, rhs, which);
    lemma_less_room(first.at(first_before), second.sent(), 79 - product_ids(which), 17);
    lemma_less_room(second.at(second_before), first.sent(), 79 - product_ids(which), 17);
    lemma_triple_shares(first, second.sent(), lhs, rhs);
    lemma_triple_shares(second, first.sent(), lhs, rhs);
    lemma_step_triples(first.before, lhs, rhs, which);
    lemma_step_triples(second.before, lhs, rhs, which);
    assert(first.settled.results.dom().contains(RESULT_ZERO as int)
        && first.settled.results[RESULT_ZERO as int] == Value::Scalar(Scalar::of_nat(0))
        && second.settled.results.dom().contains(RESULT_ZERO as int)
        && second.settled.results[RESULT_ZERO as int] == Value::Scalar(Scalar::of_nat(0))) by {
        reveal(Course::proceeds);
        assert(first.start.results.dom().contains(RESULT_ZERO as int));
        assert(second.start.results.dom().contains(RESULT_ZERO as int));
        assert(first.before.results.dom().contains(RESULT_ZERO as int));
        assert(second.before.results.dom().contains(RESULT_ZERO as int));
        lemma_product_step(first.before, lhs, rhs, product_steps());
        lemma_product_step(second.before, lhs, rhs, product_steps());
        lemma_product_unfolded(first.before, lhs, rhs);
        lemma_product_unfolded(second.before, lhs, rhs);
        assert(first.before.auth_beaver_mul(lhs, rhs).results.dom().contains(RESULT_ZERO as int));
        assert(second.before.auth_beaver_mul(lhs, rhs).results.dom().contains(RESULT_ZERO as int));
        assert(first.declared.results.dom().contains(RESULT_ZERO as int));
        assert(second.declared.results.dom().contains(RESULT_ZERO as int));
    }
    lemma_beaver_multiplication(
        first.at(first_before),
        second.at(second_before),
        RESULT_MAC_KEY,
        (n + which) as usize,
        key0,
        key1,
        share0,
        share1,
    );
    let ids = triple_ids(n, which);
    lemma_zero_modifier_authentic(
        key0,
        key1,
        share0,
        share1,
        scalar_at(first.settled, ids.mac as int),
        scalar_at(second.settled, ids.mac as int),
    );
}

/// The triple whose shares a step of the multiplication uses
proof fn lemma_step_triples(s: FabricState, lhs: AuthenticatedIds, rhs: AuthenticatedIds, step: int)
    requires
        0 <= step <= 3,
        s.triples.len() >= 4,
    ensures
        product_step(s, lhs, rhs, step).triples == s.triples.skip(step + 1),
        step < 3 ==> product_step(s, lhs, rhs, step).triples[0] == s.triples[step + 1],
    decreases step,
{
    let n = s.next_result_id;
    if step == 0 {
        lemma_triples_used(s, 0, 0);
    } else {
        lemma_step_triples(s, lhs, rhs, step - 1);
        lemma_triples_used(
            product_step(s, lhs, rhs, step - 1),
            RESULT_MAC_KEY,
            (n + step - 1) as usize,
        );
        assert(s.triples.skip(step).skip(1) =~= s.triples.skip(step + 1));
    }
}

/// Once a party has settled, it holds the operands less the first two
/// values of the triple
proof fn lemma_product_masked(
    course: Course,
    from_peer: Seq<OutboundView>,
    lhs: AuthenticatedIds,
    rhs: AuthenticatedIds,
    x: ScalarPart,
    y: ScalarPart,
    a: ScalarPart,
    b: ScalarPart,
)
    requires
        course.proceeds(from_peer, 79),
        course.declared.extends(course.before.auth_beaver_mul(lhs, rhs)),
        allocated(course, lhs),
        allocated(course, rhs),
        part_held(course, lhs, x),
        part_held(course, rhs, y),
        part_held(course, triple_ids(course.before.next_result_id, 0), a),
        part_held(course, triple_ids(course.before.next_result_id, 1), b),
        RESULT_ZERO < course.before.next_result_id,
    ensures
        part_held(
            course,
            pair_at(course.before.next_result_id + 54, lhs.public_modifier),
            x.masked_by(a),
        ),
        part_held(
            course,
            pair_at(course.before.next_result_id + 56, rhs.public_modifier),
            y.masked_by(b),
        ),
{
    let s = course.before;
    let n = s.next_result_id;
    lemma_product_at(course, from_peer, lhs, rhs, 3);
    lemma_less_room(course.at(product_step(s, lhs, rhs, 3)), from_peer, 25, 2);
    lemma_masked_held(
        course.at(product_step(s, lhs, rhs, 3)),
        from_peer,
        lhs,
        triple_ids(n, 0),
        x,
        a,
    );
    lemma_product_at(course, from_peer, lhs, rhs, 4);
    lemma_less_room(course.at(product_step(s, lhs, rhs, 4)), from_peer, 23, 2);
    lemma_masked_held(
        course.at(product_step(s, lhs, rhs, 4)),
        from_peer,
        rhs,
        triple_ids(n, 1),
        y,
        b,
    );
}

/// Once the parties have settled, both hold the opened masked operands
proof fn lemma_product_opened(
    first: Course,
    second: Course,
    lhs: AuthenticatedIds,
    rhs: AuthenticatedIds,
    which: int,
    mine: Scalar,
    theirs: Scalar,
)
    requires
        paired(first, second, 79),
        first.declared.extends(first.before.auth_beaver_mul(lhs, rhs)),
        second.declared.extends(second.before.auth_beaver_mul(lhs, rhs)),
        which == 0 || which == 1,
        first.settled.results.dom().contains(first.before.next_result_id + 54 + 2 * which),
        first.settled.results[first.before.next_result_id + 54 + 2 * which] == Value::Scalar(mine),
        second.settled.results.dom().contains(first.before.next_result_id + 54 + 2 * which),
        second.settled.results[first.before.next_result_id + 54 + 2 * which] == Value::Scalar(
            theirs,
        ),
    ensures
        first.settled.results.dom().contains(first.before.next_result_id + 60 + 3 * which),
        first.settled.results[first.before.next_result_id + 60 + 3 * which] == Value::Scalar(
            opened(mine, theirs),
        ),
        second.settled.results.dom().contains(first.before.next_result_id + 60 + 3 * which),
        second.settled.results[first.before.next_result_id + 60 + 3 * which] == Value::Scalar(
            opened(mine, theirs),
        ),
{
    let n = first.before.next_result_id;
    let first_before = product_step(first.before, lhs, rhs, 5 + which);
    let second_before = product_step(second.before, lhs, rhs, 5 + which);
    lemma_product_paired_at(first, second, lhs, rhs, 5 + which);
    lemma_less_room(first.at(first_before), second.sent(), 79 - product_ids(5 + which), 3);
    lemma_less_room(second.at(second_before), first.sent(), 79 - product_ids(5 + which), 3);
    lemma_opening(
        first.at(first_before),
        second.at(second_before),
        (n + 54 + 2 * which) as usize,
        Value::Scalar(opened(mine, theirs)),
    );
}

/// What a party makes of the opened masked operands `d` and `e` and of its
/// parts of the triple `(a, b, c)`: `d b + d e + e a + c`, where `d e` is
/// added as a public scalar
pub open spec fn product_part(
    party_id: u64,
    a: ScalarPart,
    b: ScalarPart,
    c: ScalarPart,
    d: Scalar,
    e: Scalar,
) -> ScalarPart {
    b.times(d).plus_public(party_id, d.mul_spec(e)).plus(a.times(e)).plus(c)
}

/// Once a party has settled and holds the opened masked operands, it holds
/// its parts of the product under the last three results of the multiplication
proof fn lemma_product_combined(
    course: Course,
    from_peer: Seq<OutboundView>,
    lhs: AuthenticatedIds,
    rhs: AuthenticatedIds,
    a: ScalarPart,
    b: ScalarPart,
    c: ScalarPart,
    d: Scalar,
    e: Scalar,
)
    requires
        course.proceeds(from_peer, 79),
        course.declared.extends(course.before.auth_beaver_mul(lhs, rhs)),
        part_held(course, triple_ids(course.before.next_result_id, 0), a),
        part_held(course, triple_ids(course.before.next_result_id, 1), b),
        part_held(course, triple_ids(course.before.next_result_id, 2), c),
        RESULT_ZERO < course.before.next_result_id,
        course.settled.results.dom().contains(course.before.next_result_id + 60),
        course.settled.results[course.before.next_result_id + 60] == Value::Scalar(d),
        course.settled.results.dom().contains(course.before.next_result_id + 63),
        course.settled.results[course.before.next_result_id + 63] == Value::Scalar(e),
    ensures
        part_held(
            course,
            three_at(course.before.next_result_id + 76),
            product_part(course.before.party_id, a, b, c, d, e),
        ),
{
    let s = course.before;
    let n = s.next_result_id;
    let party_id = s.party_id;
    let de = d.mul_spec(e);
    let db = b.times(d);
    let shifted = db.plus_public(party_id, de);
    let ea = a.times(e);
    lemma_product_at(course, from_peer, lhs, rhs, 7);
    lemma_less_room(course.at(product_step(s, lhs, rhs, 7)), from_peer, 15, 1);
    lemma_gate_settled(
        course.at(product_step(s, lhs, rhs, 7)),
        from_peer,
        1,
        seq![(n + 60) as usize, (n + 63) as usize],
        GateFunction::Mul,
        seq![Value::Scalar(d), Value::Scalar(e)],
        Value::Scalar(de),
    );
    lemma_product_at(course, from_peer, lhs, rhs, 8);
    lemma_less_room(course.at(product_step(s, lhs, rhs, 8)), from_peer, 14, 3);
    lemma_times_public_held(
        course.at(product_step(s, lhs, rhs, 8)),
        from_peer,
        triple_ids(n, 1),
        (n + 60) as usize,
        b,
        d,
    );
    lemma_product_at(course, from_peer, lhs, rhs, 9);
    lemma_less_room(course.at(product_step(s, lhs, rhs, 9)), from_peer, 11, 2);
    lemma_plus_public_held(
        course.at(product_step(s, lhs, rhs, 9)),
        from_peer,
        three_at(n + 65),
        (n + 64) as usize,
        db,
        de,
    );
    lemma_product_at(course, from_peer, lhs, rhs, 10);
    lemma_less_room(course.at(product_step(s, lhs, rhs, 10)), from_peer, 9, 3);
    lemma_times_public_held(
        course.at(product_step(s, lhs, rhs, 10)),
        from_peer,
        triple_ids(n, 0),
        (n + 63) as usize,
        a,
        e,
    );
    lemma_product_at(course, from_peer, lhs, rhs, 11);
    lemma_less_room(course.at(product_step(s, lhs, rhs, 11)), from_peer, 6, 3);
    lemma_sum_held(
        course.at(product_step(s, lhs, rhs, 11)),
        from_peer,
        shifted_at(n),
        three_at(n + 70),
        shifted,
        ea,
    );
    lemma_product_at(course, from_peer, lhs, rhs, 12);
    lemma_sum_held(
        course.at(product_step(s, lhs, rhs, 12)),
        from_peer,
        three_at(n + 73),
        triple_ids(n, 2),
        shifted.plus(ea),
        c,
    );
}

/// The product of two authenticated scalars is an authenticated scalar,
/// the product of the values. Two parties that have allocated as many
/// results, and whose shares of the four oldest Beaver triples are shares of
/// products and their factors, multiply the authenticated scalars whose parts
/// they hold under the same identifiers; once each has evaluated its graph
/// and taken in what the other has sent, what the two hold under the last
/// three results of the multiplication makes up an authenticated scalar, and
/// its shares add up to the product of the values.
pub proof fn lemma_authenticated_multiplication(
    first: Course,
    second: Course,
    lhs: AuthenticatedIds,
    rhs: AuthenticatedIds,
    key0: Scalar,
    key1: Scalar,
    x0: ScalarPart,
    x1: ScalarPart,
    y0: ScalarPart,
    y1: ScalarPart,
)
    requires
        paired(first, second, 79),
        first.declared.extends(first.before.auth_beaver_mul(lhs, rhs)),
        second.declared.extends(second.before.auth_beaver_mul(lhs, rhs)),
        key_held(first, key0),
        key_held(second, key1),
        allocated(first, lhs),
        allocated(first, rhs),
        part_held(first, lhs, x0),
        part_held(second, lhs, x1),
        part_held(first, rhs, y0),
        part_held(second, rhs, y1),
        authentic(key0, key1, x0, x1),
        authentic(key0, key1, y0, y1),
        first.before.triples.len() >= 4,
        second.before.triples.len() >= 4,
        forall|i: int|
            0 <= i < 4 ==> multiplies(
                #[trigger] first.before.triples[i],
                second.before.triples[i],
            ),
    ensures
        ({
            let ids = three_at(first.before.next_result_id + 76);
            let z0 = part_at(first.settled, ids);
            let z1 = part_at(second.settled, ids);
            &&& part_held(first, ids, z0)
            &&& part_held(second, ids, z1)
            &&& authentic(key0, key1, z0, z1)
            &&& opened(z0.share, z1.share) == opened(x0.share, x1.share).mul_spec(
                opened(y0.share, y1.share),
            )
        }),
{
    let n = first.before.next_result_id;
    let a0 = part_at(first.settled, triple_ids(n, 0));
    let a1 = part_at(second.settled, triple_ids(n, 0));
    let b0 = part_at(first.settled, triple_ids(n, 1));
    let b1 = part_at(second.settled, triple_ids(n, 1));
    let c0 = part_at(first.settled, triple_ids(n, 2));
    let c1 = part_at(second.settled, triple_ids(n, 2));
    let d = opened(x0.masked_by(a0).share, x1.masked_by(a1).share);
    let e = opened(y0.masked_by(b0).share, y1.masked_by(b1).share);
    assert(second.before.next_result_id == n && RESULT_ZERO < n && first.before.party_id == PARTY0
        && second.before.party_id != PARTY0);
    assert(0 <= n && n + 79 <= usize::MAX) by {
        reveal(Course::proceeds);
    }
    assert(multiplies(first.before.triples[0], second.before.triples[0]));
    assert(multiplies(first.before.triples[1], second.before.triples[1]));
    assert(multiplies(first.before.triples[2], second.before.triples[2]));
    assert(multiplies(first.before.triples[3], second.before.triples[3]));
    // The values of the triple are authenticated
    lemma_triple_mac(first, second, lhs, rhs, 0, key0, key1);
    lemma_triple_mac(first, second, lhs, rhs, 1, key0, key1);
    lemma_triple_mac(first, second, lhs, rhs, 2, key0, key1);
    // The operands are masked and opened
    lemma_product_masked(first, second.sent(), lhs, rhs, x0, y0, a0, b0);
    lemma_product_masked(second, first.sent(), lhs, rhs, x1, y1, a1, b1);
    lemma_product_opened(first, second, lhs, rhs, 0, x0.masked_by(a0).share, x1.masked_by(a1).share);
    lemma_product_opened(first, second, lhs, rhs, 1, y0.masked_by(b0).share, y1.masked_by(b1).share);
    // Each party makes its parts of the product
    lemma_product_combined(first, second.sent(), lhs, rhs, a0, b0, c0, d, e);
    lemma_product_combined(second, first.sent(), lhs, rhs, a1, b1, c1, d, e);
    lemma_authenticated_product(key0, key1, x0, x1, y0, y1, a0, a1, b0, b1, c0, c1);
}

} // verus!
