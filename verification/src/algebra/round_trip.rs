//! What comes back of a scalar that one party shares with the other: opened,
//! it is the scalar, for both parties; opened under authentication, the
//! verdict of both parties is that it is authentic

use vstd::prelude::*;

use crate::algebra::authenticated_scalar::AuthenticatedIds;
use crate::algebra::authentication::held;
use crate::algebra::local::scalar_at;
use crate::algebra::authentication::lemma_authenticated_opening;
use crate::algebra::authentication::lemma_opening_step;
use crate::algebra::authentication::lemma_opening_unfolded;
use crate::algebra::authentication::opening_steps;
use crate::algebra::multiplication::beaver_steps;
use crate::algebra::multiplication::lemma_beaver_multiplication;
use crate::algebra::multiplication::lemma_beaver_step;
use crate::algebra::openings::lemma_opened_graph;
use crate::algebra::openings::lemma_opening;
use crate::algebra::scalar::lemma_modulus_bounds;
use crate::algebra::scalar::scalar_modulus;
use crate::algebra::scalar::Scalar;
use crate::algebra::spdz::authentic;
use crate::algebra::spdz::lemma_operation_views;
use crate::algebra::spdz::lemma_sharing_opens;
use crate::algebra::spdz::opened;
use crate::algebra::spdz::ScalarPart;
use crate::fabric::gate::GateFunction;
use crate::fabric::parties::lemma_declarations_follow;
use crate::fabric::parties::lemma_extends_transitive;
use crate::fabric::parties::lemma_follows_transitive;
use crate::fabric::parties::lemma_received;
use crate::fabric::parties::paired;
use crate::fabric::parties::Course;
use crate::fabric::result::Value;
use crate::fabric::FabricState;
use crate::fabric::OperationType;
use crate::fabric::RESULT_MAC_KEY;
use crate::fabric::RESULT_ZERO;
use crate::network::OutboundView;
use crate::network::PartyId;
use crate::PARTY0;
use crate::PARTY1;

verus! {

/// The messages that a party has handed over since an earlier state are
/// tagged with different results
pub proof fn lemma_distinct_since(settled: FabricState, count: int)
    requires
        settled.graph_wf(),
        0 <= count <= settled.sent_log.len(),
    ensures
        FabricState::sends_distinct(settled.sent_log.skip(count)),
{
    reveal(FabricState::sends_distinct);
    let since = settled.sent_log.skip(count);
    assert forall|a: int, b: int| 0 <= a < b < since.len() implies (#[trigger] since[a]).result_id != (
    #[trigger] since[b]).result_id by {
        assert(settled.sent_log[a + count].result_id != settled.sent_log[b + count].result_id);
    }
}

/// The blinder and the value less the blinder add up to the value, in
/// either order, and so does the value and zero
pub proof fn lemma_blinder_opens(value: Scalar, blinder: Scalar)
    requires
        value@ < scalar_modulus(),
    ensures
        blinder.add_spec(value.sub_spec(blinder)) == value,
        value.sub_spec(blinder).add_spec(blinder) == value,
        value.add_spec(Scalar::of_nat(0)) == value,
{
    lemma_sharing_opens(value, blinder);
    lemma_modulus_bounds();
    let share = value.sub_spec(blinder);
    lemma_operation_views(value, blinder);
    lemma_operation_views(blinder, share);
    lemma_operation_views(share, blinder);
    assert(blinder.add_spec(share)@ == share.add_spec(blinder)@);
    Scalar::lemma_view_of_nat(0);
    vstd::arithmetic::div_mod::lemma_small_mod(value@, scalar_modulus());
    Scalar::lemma_of_nat_view(value);
}

/// The state after a party has handed the peer its share of a scalar, or
/// has allocated the slot for the share that the peer hands it
pub open spec fn given(s: FabricState, sender: PartyId, value: Scalar, blinder: Scalar)
    -> FabricState {
    if s.party_id == sender {
        s.allocate_shared(Value::Scalar(value.sub_spec(blinder)), Value::Scalar(blinder))
    } else {
        s.receive()
    }
}

/// The share of a scalar that a party holds once the sender has shared it:
/// the sender's is the value less the blinder, the other's is the blinder
pub open spec fn share_of(party_id: PartyId, sender: PartyId, value: Scalar, blinder: Scalar)
    -> Scalar {
    if party_id == sender {
        value.sub_spec(blinder)
    } else {
        blinder
    }
}

/// Sharing a scalar declares 18 results and 12 operations: the share, and
/// the multiplication of the share by the MAC key
pub proof fn lemma_shared_graph(s: FabricState, sender: PartyId, value: Scalar, blinder: Scalar)
    requires
        s.bounded(),
        s.quiet_ahead(),
        s.has_room(18),
    ensures
        given(s, sender, value, blinder).follows(s, 1, 0),
        s.shared_scalar(value, sender, blinder) == given(s, sender, value, blinder).beaver_mul(
            RESULT_MAC_KEY,
            s.next_result_id as usize,
        ),
        s.shared_scalar(value, sender, blinder).follows(given(s, sender, value, blinder), 17, 12),
        s.shared_scalar(value, sender, blinder).follows(s, 18, 12),
        given(s, sender, value, blinder).triples == s.triples,
{
    reveal(FabricState::shared_scalar);
    let share = Value::Scalar(value.sub_spec(blinder));
    let mask = Value::Scalar(blinder);
    let handed = given(s, sender, value, blinder);
    lemma_declarations_follow(
        s,
        share,
        mask,
        Seq::empty(),
        1,
        OperationType::Gate { function: GateFunction::Add },
    );
    lemma_beaver_step(handed, RESULT_MAC_KEY, s.next_result_id as usize, beaver_steps());
    lemma_follows_transitive(
        s,
        handed,
        s.shared_scalar(value, sender, blinder),
        1,
        0,
        17,
        12,
    );
}

/// Once the parties have settled, each holds its share of the scalar that
/// the sender has shared
pub proof fn lemma_shares_given(
    first: Course,
    second: Course,
    sender: PartyId,
    value: Scalar,
    blinder: Scalar,
    other_value: Scalar,
    other_blinder: Scalar,
)
    requires
        paired(first, second, 18),
        first.start == first.before,
        second.start == second.before,
        sender == PARTY0 || sender == PARTY1,
        second.before.party_id == PARTY1,
        first.declared.extends(
            given(
                first.before,
                sender,
                if sender == PARTY0 {
                    value
                } else {
                    other_value
                },
                if sender == PARTY0 {
                    blinder
                } else {
                    other_blinder
                },
            ),
        ),
        second.declared.extends(
            given(
                second.before,
                sender,
                if sender == PARTY1 {
                    value
                } else {
                    other_value
                },
                if sender == PARTY1 {
                    blinder
                } else {
                    other_blinder
                },
            ),
        ),
    ensures
        first.settled.results.dom().contains(first.before.next_result_id),
        first.settled.results[first.before.next_result_id] == Value::Scalar(
            share_of(PARTY0, sender, value, blinder),
        ),
        second.settled.results.dom().contains(first.before.next_result_id),
        second.settled.results[first.before.next_result_id] == Value::Scalar(
            share_of(PARTY1, sender, value, blinder),
        ),
{
    reveal(Course::proceeds);
    let x = first.before.next_result_id;
    let share = Value::Scalar(value.sub_spec(blinder));
    let mask = Value::Scalar(blinder);
    let message = OutboundView { result_id: x as usize, payload: mask };
    let gate = OperationType::Gate { function: GateFunction::Add };
    lemma_declarations_follow(first.before, share, mask, Seq::empty(), 1, gate);
    lemma_declarations_follow(second.before, share, mask, Seq::empty(), 1, gate);
    lemma_distinct_since(first.settled, first.start.sent_log.len() as int);
    lemma_distinct_since(second.settled, second.start.sent_log.len() as int);
    if sender == PARTY0 {
        let handed = given(first.before, sender, value, blinder);
        let slot = given(second.before, sender, other_value, other_blinder);
        assert(handed.results.dom().contains(x) && handed.results[x] == share);
        assert(first.declared.results.dom().contains(x));
        assert(handed.sent_log[first.start.sent_log.len() as int] == message);
        assert(first.declared.sent_log[first.start.sent_log.len() as int] == message);
        assert(first.settled.sent_log[first.start.sent_log.len() as int] == message);
        assert(first.sent()[0] == message);
        assert(second.declared.kinds[x] == slot.kinds[x]);
        lemma_extends_transitive(second.start, slot, second.declared);
        lemma_received(second.start, second.declared, second.settled, first.sent(), x, mask);
    } else {
        let handed = given(second.before, sender, value, blinder);
        let slot = given(first.before, sender, other_value, other_blinder);
        assert(handed.results.dom().contains(x) && handed.results[x] == share);
        assert(second.declared.results.dom().contains(x));
        assert(handed.sent_log[second.start.sent_log.len() as int] == message);
        assert(second.declared.sent_log[second.start.sent_log.len() as int] == message);
        assert(second.settled.sent_log[second.start.sent_log.len() as int] == message);
        assert(second.sent()[0] == message);
        assert(first.declared.kinds[x] == slot.kinds[x]);
        lemma_extends_transitive(first.start, slot, first.declared);
        lemma_received(first.start, first.declared, first.settled, second.sent(), x, mask);
    }
}

/// The values of the scalar and of the blinder that a party passes when a
/// scalar is shared: the sender's count, the other party's do not
pub open spec fn passed(
    party_id: PartyId,
    sender: PartyId,
    sent: Scalar,
    other: Scalar,
) -> Scalar {
    if party_id == sender {
        sent
    } else {
        other
    }
}

/// The courses of two parties that start from states in which they have
/// allocated as many results
pub proof fn lemma_courses_paired(
    first: FabricState,
    first_declared: FabricState,
    first_settled: FabricState,
    second: FabricState,
    second_declared: FabricState,
    second_settled: FabricState,
    room: int,
)
    requires
        first.graph_wf(),
        first.quiet_ahead(),
        first.has_room(room),
        first.party_id == PARTY0,
        second.graph_wf(),
        second.quiet_ahead(),
        second.has_room(room),
        second.party_id == PARTY1,
        first.next_result_id == second.next_result_id,
        first_settled.settled(first_declared, second_settled.sent_log.skip(second.sent_log.len() as int)),
        second_settled.settled(second_declared, first_settled.sent_log.skip(first.sent_log.len() as int)),
    ensures
        paired(
            Course { start: first, before: first, declared: first_declared, settled: first_settled },
            Course {
                start: second,
                before: second,
                declared: second_declared,
                settled: second_settled,
            },
            room,
        ),
{
    reveal(Course::proceeds);
}

/// Sharing a scalar and opening it gives both parties the scalar
/// back. Two parties that have allocated as many results share a scalar of
/// the sender's, with a blinder of the sender's choice, and open it; once
/// each has evaluated its graph and taken in what the other has sent, the
/// opened value of both is the scalar. What the other party passes for the
/// value and the blinder does not matter.
pub proof fn lemma_sharing_round_trip(
    first: FabricState,
    second: FabricState,
    sender: PartyId,
    value: Scalar,
    blinder: Scalar,
    other_value: Scalar,
    other_blinder: Scalar,
    first_settled: FabricState,
    second_settled: FabricState,
)
    requires
        value@ < scalar_modulus(),
        sender == PARTY0 || sender == PARTY1,
        first.graph_wf(),
        first.quiet_ahead(),
        first.has_room(21),
        first.party_id == PARTY0,
        second.graph_wf(),
        second.quiet_ahead(),
        second.has_room(21),
        second.party_id == PARTY1,
        first.next_result_id == second.next_result_id,
        first_settled.settled(
            first.shared_scalar(
                passed(PARTY0, sender, value, other_value),
                sender,
                passed(PARTY0, sender, blinder, other_blinder),
            ).opened(first.next_result_id as usize),
            second_settled.sent_log.skip(second.sent_log.len() as int),
        ),
        second_settled.settled(
            second.shared_scalar(
                passed(PARTY1, sender, value, other_value),
                sender,
                passed(PARTY1, sender, blinder, other_blinder),
            ).opened(first.next_result_id as usize),
            first_settled.sent_log.skip(first.sent_log.len() as int),
        ),
    ensures
        first_settled.results.dom().contains(first.next_result_id + 20),
        first_settled.results[first.next_result_id + 20] == Value::Scalar(value),
        second_settled.results.dom().contains(first.next_result_id + 20),
        second_settled.results[first.next_result_id + 20] == Value::Scalar(value),
{
    let x = first.next_result_id;
    let v0 = passed(PARTY0, sender, value, other_value);
    let r0 = passed(PARTY0, sender, blinder, other_blinder);
    let v1 = passed(PARTY1, sender, value, other_value);
    let r1 = passed(PARTY1, sender, blinder, other_blinder);
    let first_shared = first.shared_scalar(v0, sender, r0);
    let second_shared = second.shared_scalar(v1, sender, r1);
    let first_declared = first_shared.opened(x as usize);
    let second_declared = second_shared.opened(x as usize);
    let first_course = Course {
        start: first,
        before: first,
        declared: first_declared,
        settled: first_settled,
    };
    let second_course = Course {
        start: second,
        before: second,
        declared: second_declared,
        settled: second_settled,
    };
    lemma_courses_paired(
        first,
        first_declared,
        first_settled,
        second,
        second_declared,
        second_settled,
        21,
    );
    lemma_shared_graph(first, sender, v0, r0);
    lemma_shared_graph(second, sender, v1, r1);
    lemma_opened_graph(first_shared, x as usize);
    lemma_opened_graph(second_shared, x as usize);
    lemma_extends_transitive(given(first, sender, v0, r0), first_shared, first_declared);
    lemma_extends_transitive(given(second, sender, v1, r1), second_shared, second_declared);
    crate::fabric::parties::lemma_paired_at(
        first_course,
        second_course,
        21,
        first,
        second,
        0,
        0,
        18,
    );
    lemma_shares_given(
        first_course,
        second_course,
        sender,
        value,
        blinder,
        other_value,
        other_blinder,
    );
    crate::fabric::parties::lemma_paired_at(
        first_course,
        second_course,
        21,
        first_shared,
        second_shared,
        18,
        12,
        3,
    );
    lemma_blinder_opens(value, blinder);
    lemma_opening(
        first_course.at(first_shared),
        second_course.at(second_shared),
        x as usize,
        Value::Scalar(value),
    );
}

/// The three results that make up the authenticated scalar that sharing
/// gives in a state: the share is the first result declared, the MAC is the
/// last, and the public modifier is zero
pub open spec fn shared_ids(s: FabricState) -> AuthenticatedIds {
    AuthenticatedIds {
        share: s.next_result_id as usize,
        mac: (s.next_result_id + 17) as usize,
        public_modifier: RESULT_ZERO,
    }
}

/// Once two parties have shared a scalar and have settled, what they hold
/// makes up an authenticated scalar of that value: the shares add up to the
/// value, and the MAC shares add up to the MAC key times the value
pub proof fn lemma_sharing_authentic(
    first: Course,
    second: Course,
    sender: PartyId,
    value: Scalar,
    blinder: Scalar,
    other_value: Scalar,
    other_blinder: Scalar,
    key0: Scalar,
    key1: Scalar,
)
    requires
        value@ < scalar_modulus(),
        sender == PARTY0 || sender == PARTY1,
        paired(first, second, 18),
        first.start == first.before,
        second.start == second.before,
        second.before.party_id == PARTY1,
        first.declared.extends(
            first.before.shared_scalar(
                passed(PARTY0, sender, value, other_value),
                sender,
                passed(PARTY0, sender, blinder, other_blinder),
            ),
        ),
        second.declared.extends(
            second.before.shared_scalar(
                passed(PARTY1, sender, value, other_value),
                sender,
                passed(PARTY1, sender, blinder, other_blinder),
            ),
        ),
        first.before.results.dom().contains(RESULT_MAC_KEY as int),
        first.before.results[RESULT_MAC_KEY as int] == Value::Scalar(key0),
        second.before.results.dom().contains(RESULT_MAC_KEY as int),
        second.before.results[RESULT_MAC_KEY as int] == Value::Scalar(key1),
        opened(first.before.triples[0].2, second.before.triples[0].2) == opened(
            first.before.triples[0].0,
            second.before.triples[0].0,
        ).mul_spec(opened(first.before.triples[0].1, second.before.triples[0].1)),
    ensures
        ({
            let x = first.before.next_result_id;
            let part0 = ScalarPart {
                share: share_of(PARTY0, sender, value, blinder),
                mac: scalar_at(first.settled, x + 17),
                public_modifier: Scalar::of_nat(0),
            };
            let part1 = ScalarPart {
                share: share_of(PARTY1, sender, value, blinder),
                mac: scalar_at(second.settled, x + 17),
                public_modifier: Scalar::of_nat(0),
            };
            &&& opened(part0.share, part1.share) == value
            &&& authentic(key0, key1, part0, part1)
            &&& held(first.settled, shared_ids(first.before), key0, part0)
            &&& held(second.settled, shared_ids(first.before), key1, part1)
        }),
{
    let x = first.before.next_result_id;
    let v0 = passed(PARTY0, sender, value, other_value);
    let r0 = passed(PARTY0, sender, blinder, other_blinder);
    let v1 = passed(PARTY1, sender, value, other_value);
    let r1 = passed(PARTY1, sender, blinder, other_blinder);
    let first_given = given(first.before, sender, v0, r0);
    let second_given = given(second.before, sender, v1, r1);
    let first_shared = first.before.shared_scalar(v0, sender, r0);
    let second_shared = second.before.shared_scalar(v1, sender, r1);
    assert(first.before.bounded() && first.before.quiet_ahead() && first.before.has_room(18)
        && second.before.bounded() && second.before.quiet_ahead() && second.before.has_room(18)
        && first.before.graph_wf() && second.before.graph_wf() && second.before.next_result_id
        == x && RESULT_MAC_KEY < x) by {
        reveal(Course::proceeds);
    }
    lemma_shared_graph(first.before, sender, v0, r0);
    lemma_shared_graph(second.before, sender, v1, r1);
    lemma_extends_transitive(first_given, first_shared, first.declared);
    lemma_extends_transitive(second_given, second_shared, second.declared);
    lemma_shares_given(first, second, sender, value, blinder, other_value, other_blinder);
    lemma_blinder_opens(value, blinder);
    // The share of the MAC key and the zero are resident from the start
    assert(first.settled.results.dom().contains(RESULT_MAC_KEY as int)
        && first.settled.results[RESULT_MAC_KEY as int] == Value::Scalar(key0)
        && second.settled.results.dom().contains(RESULT_MAC_KEY as int)
        && second.settled.results[RESULT_MAC_KEY as int] == Value::Scalar(key1)
        && first.settled.results.dom().contains(RESULT_ZERO as int)
        && first.settled.results[RESULT_ZERO as int] == Value::Scalar(Scalar::of_nat(0))
        && second.settled.results.dom().contains(RESULT_ZERO as int)
        && second.settled.results[RESULT_ZERO as int] == Value::Scalar(Scalar::of_nat(0))) by {
        reveal(Course::proceeds);
        lemma_extends_transitive(first.before, first_given, first.declared);
        lemma_extends_transitive(second.before, second_given, second.declared);
        assert(first.declared.results.dom().contains(RESULT_MAC_KEY as int));
        assert(second.declared.results.dom().contains(RESULT_MAC_KEY as int));
        assert(first.before.results.dom().contains(RESULT_ZERO as int));
        assert(second.before.results.dom().contains(RESULT_ZERO as int));
        assert(first.declared.results.dom().contains(RESULT_ZERO as int));
        assert(second.declared.results.dom().contains(RESULT_ZERO as int));
    }
    // The MAC is the product of the key and the share
    crate::fabric::parties::lemma_paired_at(
        first,
        second,
        18,
        first_given,
        second_given,
        1,
        0,
        17,
    );
    lemma_beaver_multiplication(
        first.at(first_given),
        second.at(second_given),
        RESULT_MAC_KEY,
        x as usize,
        key0,
        key1,
        share_of(PARTY0, sender, value, blinder),
        share_of(PARTY1, sender, value, blinder),
    );
}

/// Sharing a scalar and opening it under authentication gives both parties
/// the scalar back, and the verdict that it is authentic. Two parties that
/// have allocated as many results, and whose shares of the oldest Beaver
/// triple are shares of a product and its factors, share a scalar of the
/// sender's and open it under authentication; once each has evaluated its
/// graph and taken in what the other has sent, the opened value of both is the
/// scalar, and the verdict of both is one.
pub proof fn lemma_authenticated_round_trip(
    first: FabricState,
    second: FabricState,
    sender: PartyId,
    value: Scalar,
    blinder: Scalar,
    other_value: Scalar,
    other_blinder: Scalar,
    first_blinder: Scalar,
    second_blinder: Scalar,
    key0: Scalar,
    key1: Scalar,
    first_settled: FabricState,
    second_settled: FabricState,
)
    requires
        value@ < scalar_modulus(),
        sender == PARTY0 || sender == PARTY1,
        first.graph_wf(),
        first.quiet_ahead(),
        first.has_room(31),
        first.party_id == PARTY0,
        second.graph_wf(),
        second.quiet_ahead(),
        second.has_room(31),
        second.party_id == PARTY1,
        first.next_result_id == second.next_result_id,
        first.results.dom().contains(RESULT_MAC_KEY as int),
        first.results[RESULT_MAC_KEY as int] == Value::Scalar(key0),
        second.results.dom().contains(RESULT_MAC_KEY as int),
        second.results[RESULT_MAC_KEY as int] == Value::Scalar(key1),
        opened(first.triples[0].2, second.triples[0].2) == opened(
            first.triples[0].0,
            second.triples[0].0,
        ).mul_spec(opened(first.triples[0].1, second.triples[0].1)),
        first_settled.settled(
            first.shared_scalar(
                passed(PARTY0, sender, value, other_value),
                sender,
                passed(PARTY0, sender, blinder, other_blinder),
            ).auth_opened(shared_ids(first), first_blinder),
            second_settled.sent_log.skip(second.sent_log.len() as int),
        ),
        second_settled.settled(
            second.shared_scalar(
                passed(PARTY1, sender, value, other_value),
                sender,
                passed(PARTY1, sender, blinder, other_blinder),
            ).auth_opened(shared_ids(first), second_blinder),
            first_settled.sent_log.skip(first.sent_log.len() as int),
        ),
    ensures
        first_settled.results.dom().contains(first.next_result_id + 20),
        first_settled.results[first.next_result_id + 20] == Value::Scalar(value),
        first_settled.results.dom().contains(first.next_result_id + 30),
        first_settled.results[first.next_result_id + 30] == Value::Scalar(Scalar::of_nat(1)),
        second_settled.results.dom().contains(first.next_result_id + 20),
        second_settled.results[first.next_result_id + 20] == Value::Scalar(value),
        second_settled.results.dom().contains(first.next_result_id + 30),
        second_settled.results[first.next_result_id + 30] == Value::Scalar(Scalar::of_nat(1)),
{
    let x = first.next_result_id;
    let ids = shared_ids(first);
    let v0 = passed(PARTY0, sender, value, other_value);
    let r0 = passed(PARTY0, sender, blinder, other_blinder);
    let v1 = passed(PARTY1, sender, value, other_value);
    let r1 = passed(PARTY1, sender, blinder, other_blinder);
    let first_shared = first.shared_scalar(v0, sender, r0);
    let second_shared = second.shared_scalar(v1, sender, r1);
    let first_declared = first_shared.auth_opened(ids, first_blinder);
    let second_declared = second_shared.auth_opened(ids, second_blinder);
    let first_course = Course {
        start: first,
        before: first,
        declared: first_declared,
        settled: first_settled,
    };
    let second_course = Course {
        start: second,
        before: second,
        declared: second_declared,
        settled: second_settled,
    };
    let part0 = ScalarPart {
        share: share_of(PARTY0, sender, value, blinder),
        mac: scalar_at(first_settled, x + 17),
        public_modifier: Scalar::of_nat(0),
    };
    let part1 = ScalarPart {
        share: share_of(PARTY1, sender, value, blinder),
        mac: scalar_at(second_settled, x + 17),
        public_modifier: Scalar::of_nat(0),
    };
    lemma_courses_paired(
        first,
        first_declared,
        first_settled,
        second,
        second_declared,
        second_settled,
        31,
    );
    lemma_shared_graph(first, sender, v0, r0);
    lemma_shared_graph(second, sender, v1, r1);
    lemma_opening_step(first_shared, ids, first_blinder, opening_steps());
    lemma_opening_step(second_shared, ids, second_blinder, opening_steps());
    lemma_opening_unfolded(first_shared, ids, first_blinder);
    lemma_opening_unfolded(second_shared, ids, second_blinder);
    crate::fabric::parties::lemma_paired_at(
        first_course,
        second_course,
        31,
        first,
        second,
        0,
        0,
        18,
    );
    lemma_sharing_authentic(
        first_course,
        second_course,
        sender,
        value,
        blinder,
        other_value,
        other_blinder,
        key0,
        key1,
    );
    crate::fabric::parties::lemma_paired_at(
        first_course,
        second_course,
        31,
        first_shared,
        second_shared,
        18,
        12,
        13,
    );
    lemma_authenticated_opening(
        first_course.at(first_shared),
        second_course.at(second_shared),
        ids,
        first_blinder,
        second_blinder,
        key0,
        key1,
        part0,
        part1,
    );
}

} // verus!
