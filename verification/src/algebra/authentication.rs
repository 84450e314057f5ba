//! The authenticated opening of a shared scalar, followed through the graphs
//! of both parties: the value is opened, each party commits to its share of
//! the MAC check, and the verdict of both is one exactly if the shares of the
//! MAC check cancel

use vstd::prelude::*;

use crate::algebra::authenticated_scalar::AuthenticatedIds;
use crate::algebra::openings::lemma_exchange_graph;
use crate::algebra::openings::lemma_exchanged;
use crate::algebra::openings::lemma_gate_follows;
use crate::algebra::openings::lemma_gate_settled;
use crate::algebra::openings::lemma_opened_graph;
use crate::algebra::openings::lemma_opening;
use crate::algebra::scalar::scalar_encoding;
use crate::algebra::scalar::Scalar;
use crate::algebra::spdz::authentic;
use crate::algebra::spdz::lemma_mac_check_cancels;
use crate::algebra::spdz::opened;
use crate::algebra::spdz::ScalarPart;
use crate::commitment::commitment_of;
use crate::fabric::gate::GateFunction;
use crate::fabric::gate::NetworkFunction;
use crate::fabric::parties::lemma_declarations_follow;
use crate::fabric::parties::lemma_paired_at;
use crate::fabric::parties::lemma_proceeds_at;
use crate::fabric::parties::paired;
use crate::fabric::parties::Course;
use crate::fabric::parties::lemma_extends_transitive;
use crate::fabric::parties::lemma_follows_transitive;
use crate::fabric::result::ResultId;
use crate::fabric::result::Value;
use crate::fabric::FabricState;
use crate::fabric::OperationType;
use crate::fabric::RESULT_MAC_KEY;
use crate::network::OutboundView;
use crate::PARTY0;

verus! {

/// The number of steps in which an authenticated opening is declared, after
/// the opening of the value
pub open spec fn opening_steps() -> int {
    7
}

/// The state after the value has been opened and the first `step` steps of
/// the MAC check have been declared
pub open spec fn opening_step(s: FabricState, a: AuthenticatedIds, blinder: Scalar, step: int)
    -> FabricState
    decreases step,
{
    let n = s.next_result_id;
    let value = (n + 2) as usize;
    let check = (n + 3) as usize;
    let commitment = (n + 4) as usize;
    if step <= 0 {
        s.opened(a.share)
    } else {
        let before = opening_step(s, a, blinder, step - 1);
        if step == 1 {
            before.with_gate(
                seq![RESULT_MAC_KEY, value, a.public_modifier, a.mac],
                GateFunction::MacCheck,
            )
        } else if step == 2 {
            before.with_gate(seq![check], GateFunction::Commit { blinder })
        } else if step == 3 {
            before.exchange(seq![commitment], NetworkFunction::SendArgument)
        } else if step == 4 {
            before.exchange(seq![check], NetworkFunction::SendArgument)
        } else if step == 5 {
            before.allocate(Value::Scalar(blinder))
        } else if step == 6 {
            before.exchange(seq![(n + 9) as usize], NetworkFunction::SendArgument)
        } else {
            before.with_gate(verdict_args(s), GateFunction::VerifyMacCheck)
        }
    }
}

/// The arguments of the last step, which verifies the MAC check: the share
/// of the party itself, the share of the peer, the blinder of the peer and
/// the commitment of the peer
pub open spec fn verdict_args(s: FabricState) -> Seq<ResultId> {
    let n = s.next_result_id;
    if s.party_id == PARTY0 {
        seq![(n + 3) as usize, (n + 8) as usize, (n + 11) as usize, (n + 6) as usize]
    } else {
        seq![(n + 3) as usize, (n + 7) as usize, (n + 10) as usize, (n + 5) as usize]
    }
}

/// The number of results that have been allocated after a step
pub open spec fn opening_ids(step: int) -> int {
    if step <= 0 {
        3
    } else if step == 1 {
        4
    } else if step == 2 {
        5
    } else if step == 3 {
        7
    } else if step == 4 {
        9
    } else if step == 5 {
        10
    } else if step == 6 {
        12
    } else {
        13
    }
}

/// The number of operations that have been declared after a step
pub open spec fn opening_ops(step: int) -> int {
    if step <= 0 {
        2
    } else if step <= 4 {
        2 + step
    } else if step == 5 {
        6
    } else {
        1 + step
    }
}

/// Each step of an authenticated opening follows the one before
pub proof fn lemma_opening_step(s: FabricState, a: AuthenticatedIds, blinder: Scalar, step: int)
    requires
        s.bounded(),
        s.quiet_ahead(),
        s.has_room(13),
        0 <= step <= opening_steps(),
    ensures
        opening_step(s, a, blinder, step).follows(s, opening_ids(step), opening_ops(step)),
        step > 0 ==> opening_step(s, a, blinder, step).extends(
            opening_step(s, a, blinder, step - 1),
        ),
    decreases step,
{
    let n = s.next_result_id;
    let value = (n + 2) as usize;
    let check = (n + 3) as usize;
    let commitment = (n + 4) as usize;
    if step == 0 {
        lemma_opened_graph(s, a.share);
    } else {
        let before = opening_step(s, a, blinder, step - 1);
        let after = opening_step(s, a, blinder, step);
        lemma_opening_step(s, a, blinder, step - 1);
        if step == 1 {
            lemma_gate_follows(
                before,
                seq![RESULT_MAC_KEY, value, a.public_modifier, a.mac],
                GateFunction::MacCheck,
            );
        } else if step == 2 {
            lemma_gate_follows(before, seq![check], GateFunction::Commit { blinder });
        } else if step == 3 {
            lemma_exchange_graph(before, commitment);
        } else if step == 4 {
            lemma_exchange_graph(before, check);
        } else if step == 5 {
            lemma_declarations_follow(
                before,
                Value::Scalar(blinder),
                Value::Scalar(blinder),
                Seq::empty(),
                1,
                OperationType::Gate { function: GateFunction::Add },
            );
        } else if step == 6 {
            lemma_exchange_graph(before, (n + 9) as usize);
        } else {
            lemma_gate_follows(before, verdict_args(s), GateFunction::VerifyMacCheck);
        }
        lemma_follows_transitive(
            s,
            before,
            after,
            opening_ids(step - 1),
            opening_ops(step - 1),
            opening_ids(step) - opening_ids(step - 1),
            opening_ops(step) - opening_ops(step - 1),
        );
    }
}

/// The authenticated opening is the last of its steps
pub proof fn lemma_opening_unfolded(s: FabricState, a: AuthenticatedIds, blinder: Scalar)
    requires
        s.bounded(),
        s.quiet_ahead(),
        s.has_room(13),
    ensures
        opening_step(s, a, blinder, opening_steps()) == s.auth_opened(a, blinder),
{
    reveal(FabricState::auth_opened);
    reveal_with_fuel(opening_step, 9);
    lemma_opening_step(s, a, blinder, 2);
    lemma_opening_step(s, a, blinder, 3);
    lemma_opening_step(s, a, blinder, 5);
    let n = s.next_result_id;
    let checked = opening_step(s, a, blinder, 2);
    let committed = opening_step(s, a, blinder, 3);
    let revealed = opening_step(s, a, blinder, 5);
    assert(verdict_args(s) =~= seq![
        (n + 3) as usize,
        committed.exchanged_id() as usize,
        revealed.exchanged_id() as usize,
        checked.exchanged_id() as usize,
    ]);
}

/// What extends the authenticated opening extends each of its steps
pub proof fn lemma_opening_step_extended(
    s: FabricState,
    a: AuthenticatedIds,
    blinder: Scalar,
    declared: FabricState,
    step: int,
)
    requires
        s.bounded(),
        s.quiet_ahead(),
        s.has_room(13),
        0 <= step <= opening_steps(),
        declared.extends(s.auth_opened(a, blinder)),
    ensures
        declared.extends(opening_step(s, a, blinder, step)),
    decreases opening_steps() - step,
{
    lemma_opening_unfolded(s, a, blinder);
    if step < opening_steps() {
        lemma_opening_step_extended(s, a, blinder, declared, step + 1);
        lemma_opening_step(s, a, blinder, step + 1);
        lemma_extends_transitive(
            opening_step(s, a, blinder, step),
            opening_step(s, a, blinder, step + 1),
            declared,
        );
    }
}

/// The result of a gate that is a step of the authenticated opening is the
/// value of its function on the values of its arguments, once the party has
/// settled and the arguments are resident
proof fn lemma_opening_gate(
    course: Course,
    from_peer: Seq<OutboundView>,
    a: AuthenticatedIds,
    blinder: Scalar,
    step: int,
    args: Seq<ResultId>,
    function: GateFunction,
    values: Seq<Value>,
    value: Value,
)
    requires
        course.proceeds(from_peer, 13),
        course.declared.extends(course.before.auth_opened(a, blinder)),
        1 <= step <= opening_steps(),
        opening_step(course.before, a, blinder, step) == opening_step(
            course.before,
            a,
            blinder,
            step - 1,
        ).with_gate(args, function),
        values.len() == args.len(),
        forall|j: int|
            0 <= j < args.len() ==> (#[trigger] args[j]) < course.before.next_result_id
                + opening_ids(step - 1),
        forall|j: int|
            0 <= j < args.len() ==> course.settled.results.dom().contains(
                #[trigger] args[j] as int,
            ) && course.settled.results[args[j] as int] == values[j],
        function.eval_spec(values) == Some(value),
    ensures
        course.settled.results.dom().contains(course.before.next_result_id + opening_ids(step - 1)),
        course.settled.results[course.before.next_result_id + opening_ids(step - 1)] == value,
{
    let s = course.before;
    let before = opening_step(s, a, blinder, step - 1);
    assert(s.bounded() && s.quiet_ahead() && s.has_room(13)) by {
        reveal(Course::proceeds);
    }
    lemma_opening_step(s, a, blinder, step - 1);
    lemma_opening_step_extended(s, a, blinder, course.declared, step);
    lemma_proceeds_at(
        course,
        from_peer,
        13,
        before,
        opening_ids(step - 1),
        opening_ops(step - 1),
        1,
    );
    lemma_gate_settled(course.at(before), from_peer, 1, args, function, values, value);
}

/// Whether a state holds a share of the MAC key and the parts of an
/// authenticated scalar under the given identifiers
pub open spec fn held(s: FabricState, a: AuthenticatedIds, key: Scalar, part: ScalarPart) -> bool {
    &&& s.results.dom().contains(RESULT_MAC_KEY as int)
    &&& s.results[RESULT_MAC_KEY as int] == Value::Scalar(key)
    &&& s.results.dom().contains(a.share as int)
    &&& s.results[a.share as int] == Value::Scalar(part.share)
    &&& s.results.dom().contains(a.mac as int)
    &&& s.results[a.mac as int] == Value::Scalar(part.mac)
    &&& s.results.dom().contains(a.public_modifier as int)
    &&& s.results[a.public_modifier as int] == Value::Scalar(part.public_modifier)
}

/// Whether a party that has settled holds a share of the MAC key and the
/// parts of an authenticated scalar under the given identifiers, all of them
/// allocated before the declarations at hand
pub open spec fn holds(course: Course, a: AuthenticatedIds, key: Scalar, part: ScalarPart) -> bool {
    &&& RESULT_MAC_KEY < course.before.next_result_id
    &&& a.share < course.before.next_result_id
    &&& a.mac < course.before.next_result_id
    &&& a.public_modifier < course.before.next_result_id
    &&& held(course.settled, a, key, part)
}

/// Whether a party that has settled holds, of an authenticated opening, its
/// share of the MAC check, its commitment to that share, and its blinder
pub open spec fn committed(course: Course, check: Scalar, blinder: Scalar) -> bool {
    let s = course.settled;
    let n = course.before.next_result_id;
    &&& s.results.dom().contains(n + 3)
    &&& s.results[n + 3] == Value::Scalar(check)
    &&& s.results.dom().contains(n + 4)
    &&& s.results[n + 4] == Value::Scalar(commitment_of(scalar_encoding(check@), blinder))
    &&& s.results.dom().contains(n + 9)
    &&& s.results[n + 9] == Value::Scalar(blinder)
}

/// Once a party has settled and holds the opened value, it holds its share
/// of the MAC check, its commitment to that share, and its blinder
pub proof fn lemma_opening_committed(
    course: Course,
    from_peer: Seq<OutboundView>,
    a: AuthenticatedIds,
    blinder: Scalar,
    key: Scalar,
    part: ScalarPart,
    value: Scalar,
)
    requires
        course.proceeds(from_peer, 13),
        course.declared.extends(course.before.auth_opened(a, blinder)),
        holds(course, a, key, part),
        course.settled.results.dom().contains(course.before.next_result_id + 2),
        course.settled.results[course.before.next_result_id + 2] == Value::Scalar(value),
    ensures
        committed(course, part.mac_check(key, value), blinder),
{
    let s = course.before;
    let n = s.next_result_id;
    let check = part.mac_check(key, value);
    assert(0 <= n && n + 13 <= usize::MAX) by {
        reveal(Course::proceeds);
    }
    lemma_opening_gate(
        course,
        from_peer,
        a,
        blinder,
        1,
        seq![RESULT_MAC_KEY, (n + 2) as usize, a.public_modifier, a.mac],
        GateFunction::MacCheck,
        seq![
            Value::Scalar(key),
            Value::Scalar(value),
            Value::Scalar(part.public_modifier),
            Value::Scalar(part.mac),
        ],
        Value::Scalar(check),
    );
    lemma_opening_gate(
        course,
        from_peer,
        a,
        blinder,
        2,
        seq![(n + 3) as usize],
        GateFunction::Commit { blinder },
        seq![Value::Scalar(check)],
        Value::Scalar(commitment_of(scalar_encoding(check@), blinder)),
    );
    assert(course.settled.results.dom().contains(n + 9) && course.settled.results[n + 9]
        == Value::Scalar(blinder)) by {
        reveal(Course::proceeds);
        lemma_opening_step(s, a, blinder, 4);
        lemma_opening_step(s, a, blinder, 5);
        lemma_opening_step_extended(s, a, blinder, course.declared, 5);
        let revealed = opening_step(s, a, blinder, 5);
        assert(revealed.results.dom().contains(n + 9) && revealed.results[n + 9] == Value::Scalar(
            blinder,
        ));
        assert(course.declared.results.dom().contains(n + 9));
    }
}

/// Once a party has settled and holds the peer's share of the MAC check, the
/// peer's blinder and the peer's commitment, its verdict is one exactly if the
/// peer's share opens the commitment and cancels its own
pub proof fn lemma_opening_verdict(
    course: Course,
    from_peer: Seq<OutboundView>,
    a: AuthenticatedIds,
    blinder: Scalar,
    check: Scalar,
    peer_check: Scalar,
    peer_blinder: Scalar,
    peer_commitment: Scalar,
)
    requires
        course.proceeds(from_peer, 13),
        course.declared.extends(course.before.auth_opened(a, blinder)),
        course.settled.results.dom().contains(verdict_args(course.before)[0] as int),
        course.settled.results[verdict_args(course.before)[0] as int] == Value::Scalar(check),
        course.settled.results.dom().contains(verdict_args(course.before)[1] as int),
        course.settled.results[verdict_args(course.before)[1] as int] == Value::Scalar(peer_check),
        course.settled.results.dom().contains(verdict_args(course.before)[2] as int),
        course.settled.results[verdict_args(course.before)[2] as int] == Value::Scalar(
            peer_blinder,
        ),
        course.settled.results.dom().contains(verdict_args(course.before)[3] as int),
        course.settled.results[verdict_args(course.before)[3] as int] == Value::Scalar(
            peer_commitment,
        ),
    ensures
        course.settled.results.dom().contains(course.before.next_result_id + 12),
        course.settled.results[course.before.next_result_id + 12] == Value::Scalar(
            Scalar::of_nat(
                if peer_commitment == commitment_of(scalar_encoding(peer_check@), peer_blinder)
                    && check.add_spec(peer_check) == Scalar::of_nat(0) {
                    1nat
                } else {
                    0nat
                },
            ),
        ),
{
    let values = seq![
        Value::Scalar(check),
        Value::Scalar(peer_check),
        Value::Scalar(peer_blinder),
        Value::Scalar(peer_commitment),
    ];
    assert(0 <= course.before.next_result_id && course.before.next_result_id + 13 <= usize::MAX)
        by {
        reveal(Course::proceeds);
    }
    lemma_opening_gate(
        course,
        from_peer,
        a,
        blinder,
        7,
        verdict_args(course.before),
        GateFunction::VerifyMacCheck,
        values,
        Value::Scalar(
            Scalar::of_nat(
                if peer_commitment == commitment_of(scalar_encoding(peer_check@), peer_blinder)
                    && check.add_spec(peer_check) == Scalar::of_nat(0) {
                    1nat
                } else {
                    0nat
                },
            ),
        ),
    );
}

/// The exchange that is a step of the authenticated opening gives each
/// party the value of the other
proof fn lemma_exchanged_step(
    first: Course,
    second: Course,
    a: AuthenticatedIds,
    first_blinder: Scalar,
    second_blinder: Scalar,
    step: int,
    arg: ResultId,
)
    requires
        paired(first, second, 13),
        first.declared.extends(first.before.auth_opened(a, first_blinder)),
        second.declared.extends(second.before.auth_opened(a, second_blinder)),
        1 <= step <= opening_steps(),
        opening_step(first.before, a, first_blinder, step) == opening_step(
            first.before,
            a,
            first_blinder,
            step - 1,
        ).exchange(seq![arg], NetworkFunction::SendArgument),
        opening_step(second.before, a, second_blinder, step) == opening_step(
            second.before,
            a,
            second_blinder,
            step - 1,
        ).exchange(seq![arg], NetworkFunction::SendArgument),
        arg < first.before.next_result_id + opening_ids(step - 1),
        first.settled.results.dom().contains(arg as int),
        second.settled.results.dom().contains(arg as int),
    ensures
        first.settled.results.dom().contains(
            first.before.next_result_id + opening_ids(step - 1) + 1,
        ),
        first.settled.results[first.before.next_result_id + opening_ids(step - 1) + 1]
            == second.settled.results[arg as int],
        second.settled.results.dom().contains(first.before.next_result_id + opening_ids(step - 1)),
        second.settled.results[first.before.next_result_id + opening_ids(step - 1)]
            == first.settled.results[arg as int],
{
    let first_before = opening_step(first.before, a, first_blinder, step - 1);
    let second_before = opening_step(second.before, a, second_blinder, step - 1);
    assert(first.before.bounded() && first.before.quiet_ahead() && first.before.has_room(13)
        && second.before.bounded() && second.before.quiet_ahead() && second.before.has_room(13))
        by {
        reveal(Course::proceeds);
    }
    lemma_opening_step(first.before, a, first_blinder, step - 1);
    lemma_opening_step(second.before, a, second_blinder, step - 1);
    lemma_opening_step_extended(first.before, a, first_blinder, first.declared, step);
    lemma_opening_step_extended(second.before, a, second_blinder, second.declared, step);
    lemma_paired_at(
        first,
        second,
        13,
        first_before,
        second_before,
        opening_ids(step - 1),
        opening_ops(step - 1),
        2,
    );
    lemma_exchanged(first.at(first_before), second.at(second_before), arg);
}

/// The parties of an authenticated opening take in each other's commitment,
/// share of the MAC check and blinder
proof fn lemma_opening_revealed(
    first: Course,
    second: Course,
    a: AuthenticatedIds,
    first_blinder: Scalar,
    second_blinder: Scalar,
    check0: Scalar,
    check1: Scalar,
)
    requires
        paired(first, second, 13),
        first.declared.extends(first.before.auth_opened(a, first_blinder)),
        second.declared.extends(second.before.auth_opened(a, second_blinder)),
        committed(first, check0, first_blinder),
        committed(second, check1, second_blinder),
    ensures
        ({
            let n = first.before.next_result_id;
            let s = first.settled;
            let t = second.settled;
            &&& s.results.dom().contains(n + 6)
            &&& s.results[n + 6] == Value::Scalar(
                commitment_of(scalar_encoding(check1@), second_blinder),
            )
            &&& s.results.dom().contains(n + 8)
            &&& s.results[n + 8] == Value::Scalar(check1)
            &&& s.results.dom().contains(n + 11)
            &&& s.results[n + 11] == Value::Scalar(second_blinder)
            &&& t.results.dom().contains(n + 5)
            &&& t.results[n + 5] == Value::Scalar(
                commitment_of(scalar_encoding(check0@), first_blinder),
            )
            &&& t.results.dom().contains(n + 7)
            &&& t.results[n + 7] == Value::Scalar(check0)
            &&& t.results.dom().contains(n + 10)
            &&& t.results[n + 10] == Value::Scalar(first_blinder)
        }),
{
    let n = first.before.next_result_id;
    assert(0 <= n && n + 13 <= usize::MAX && second.before.next_result_id == n) by {
        reveal(Course::proceeds);
    }
    lemma_exchanged_step(first, second, a, first_blinder, second_blinder, 3, (n + 4) as usize);
    lemma_exchanged_step(first, second, a, first_blinder, second_blinder, 4, (n + 3) as usize);
    lemma_exchanged_step(first, second, a, first_blinder, second_blinder, 6, (n + 9) as usize);
}

/// The sum of two scalars does not depend on their order
pub proof fn lemma_sum_commutes(a: Scalar, b: Scalar)
    ensures
        a.add_spec(b) == b.add_spec(a),
{
    assert(a@ + b@ == b@ + a@);
}

/// The verdict of an authenticated opening: one if the shares of the MAC
/// check cancel, zero if they do not
pub open spec fn verdict(key0: Scalar, key1: Scalar, part0: ScalarPart, part1: ScalarPart)
    -> Scalar {
    let value = opened(part0.share, part1.share);
    Scalar::of_nat(
        if part0.mac_check(key0, value).add_spec(part1.mac_check(key1, value)) == Scalar::of_nat(
            0,
        ) {
            1nat
        } else {
            0nat
        },
    )
}

/// The verdict of an authenticated opening is one exactly if the parts make
/// up an authenticated scalar, provided that the parties agree on the public
/// modifier; it is zero if they do not make one up
pub proof fn lemma_verdict_authentic(key0: Scalar, key1: Scalar, part0: ScalarPart, part1: ScalarPart)
    requires
        part0.public_modifier == part1.public_modifier,
    ensures
        verdict(key0, key1, part0, part1) == Scalar::of_nat(1) <==> authentic(
            key0,
            key1,
            part0,
            part1,
        ),
        verdict(key0, key1, part0, part1) == Scalar::of_nat(0) <==> !authentic(
            key0,
            key1,
            part0,
            part1,
        ),
{
    crate::algebra::spdz::lemma_mac_check_detects(key0, key1, part0, part1);
    crate::algebra::scalar::lemma_modulus_bounds();
    Scalar::lemma_view_of_nat(0);
    Scalar::lemma_view_of_nat(1);
}

/// The authenticated opening of a shared scalar gives both parties the
/// value, and a verdict that is one exactly if the shares of the MAC check
/// cancel. Two parties that have allocated as many results open the value
/// whose parts they hold under the same identifiers, each with a blinder of
/// its own; once each has evaluated its graph and taken in what the other has
/// sent, both hold the sum of the shares as the opened value, and both hold
/// the same verdict. If the parts make up an authenticated scalar, the
/// verdict is one.
pub proof fn lemma_authenticated_opening(
    first: Course,
    second: Course,
    a: AuthenticatedIds,
    first_blinder: Scalar,
    second_blinder: Scalar,
    key0: Scalar,
    key1: Scalar,
    part0: ScalarPart,
    part1: ScalarPart,
)
    requires
        paired(first, second, 13),
        first.declared.extends(first.before.auth_opened(a, first_blinder)),
        second.declared.extends(second.before.auth_opened(a, second_blinder)),
        holds(first, a, key0, part0),
        holds(second, a, key1, part1),
    ensures
        first.settled.results.dom().contains(first.before.next_result_id + 2),
        first.settled.results[first.before.next_result_id + 2] == Value::Scalar(
            opened(part0.share, part1.share),
        ),
        second.settled.results.dom().contains(first.before.next_result_id + 2),
        second.settled.results[first.before.next_result_id + 2] == Value::Scalar(
            opened(part0.share, part1.share),
        ),
        first.settled.results.dom().contains(first.before.next_result_id + 12),
        first.settled.results[first.before.next_result_id + 12] == Value::Scalar(
            verdict(key0, key1, part0, part1),
        ),
        second.settled.results.dom().contains(first.before.next_result_id + 12),
        second.settled.results[first.before.next_result_id + 12] == Value::Scalar(
            verdict(key0, key1, part0, part1),
        ),
        authentic(key0, key1, part0, part1) ==> verdict(key0, key1, part0, part1) == Scalar::of_nat(
            1,
        ),
{
    let n = first.before.next_result_id;
    let value = opened(part0.share, part1.share);
    let check0 = part0.mac_check(key0, value);
    let check1 = part1.mac_check(key1, value);
    assert(0 <= n && n + 13 <= usize::MAX && second.before.next_result_id == n) by {
        reveal(Course::proceeds);
    }
    // The value is opened
    lemma_opened_value(first, second, a, first_blinder, second_blinder, Value::Scalar(value));
    // Each party commits to its share of the MAC check
    lemma_opening_committed(first, second.sent(), a, first_blinder, key0, part0, value);
    lemma_opening_committed(second, first.sent(), a, second_blinder, key1, part1, value);
    // The parties exchange the commitments, the shares and the blinders
    lemma_opening_revealed(first, second, a, first_blinder, second_blinder, check0, check1);
    // Each party gives its verdict
    lemma_opening_verdict(
        first,
        second.sent(),
        a,
        first_blinder,
        check0,
        check1,
        second_blinder,
        commitment_of(scalar_encoding(check1@), second_blinder),
    );
    lemma_opening_verdict(
        second,
        first.sent(),
        a,
        second_blinder,
        check1,
        check0,
        first_blinder,
        commitment_of(scalar_encoding(check0@), first_blinder),
    );
    lemma_sum_commutes(check0, check1);
    if authentic(key0, key1, part0, part1) {
        lemma_mac_check_cancels(key0, key1, part0, part1);
    }
}

/// The opening that is the first step of the authenticated opening gives
/// both parties the sum of their shares
proof fn lemma_opened_value(
    first: Course,
    second: Course,
    a: AuthenticatedIds,
    first_blinder: Scalar,
    second_blinder: Scalar,
    value: Value,
)
    requires
        paired(first, second, 13),
        first.declared.extends(first.before.auth_opened(a, first_blinder)),
        second.declared.extends(second.before.auth_opened(a, second_blinder)),
        a.share < first.before.next_result_id,
        first.settled.results.dom().contains(a.share as int),
        second.settled.results.dom().contains(a.share as int),
        Value::sum(first.settled.results[a.share as int], second.settled.results[a.share as int])
            == Some(value),
    ensures
        first.settled.results.dom().contains(first.before.next_result_id + 2),
        first.settled.results[first.before.next_result_id + 2] == value,
        second.settled.results.dom().contains(first.before.next_result_id + 2),
        second.settled.results[first.before.next_result_id + 2] == value,
{
    assert(first.before.bounded() && first.before.quiet_ahead() && first.before.has_room(13)
        && second.before.bounded() && second.before.quiet_ahead() && second.before.has_room(13))
        by {
        reveal(Course::proceeds);
    }
    lemma_opening_step_extended(first.before, a, first_blinder, first.declared, 0);
    lemma_opening_step_extended(second.before, a, second_blinder, second.declared, 0);
    assert(first.before.follows(first.before, 0, 0));
    assert(second.before.follows(second.before, 0, 0));
    lemma_paired_at(first, second, 13, first.before, second.before, 0, 0, 3);
    assert(first.at(first.before) == first);
    assert(second.at(second.before) == second);
    lemma_opening(first, second, a.share, value);
}

} // verus!
