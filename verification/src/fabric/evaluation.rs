//! What the evaluation of a graph does to the state of a fabric: which
//! changes keep the resident results sound, who is woken, what is sent, what
//! is taken in from the peer, and why the outcome does not depend on the
//! order of evaluation

use vstd::prelude::*;

use crate::fabric::FabricState;
use crate::fabric::MessageView;
use crate::fabric::OperationId;
use crate::fabric::OperationType;
use crate::fabric::OperationView;
use crate::fabric::SlotKind;
use crate::fabric::carries;
use crate::fabric::first_value;
use crate::fabric::handled_len;
use crate::fabric::output_id;
use crate::fabric::result::ResultId;
use crate::fabric::result::Value;
use crate::network::OutboundView;

verus! {

/// Fulfilling a result that was not resident keeps every resident result, and
/// with it the arguments, the values and the effects of every operation whose
/// arguments were resident
pub proof fn lemma_fulfilled_keeps(s: FabricState, id: int, value: Value, op: OperationView)
    requires
        !s.results.dom().contains(id),
        s.args_complete(op),
    ensures
        s.fulfilled(id, value).keeps_results_of(s),
        s.fulfilled(id, value).args_complete(op),
        s.fulfilled(id, value).arg_values(op) == s.arg_values(op),
        s.effected(op) ==> s.fulfilled(id, value).effected(op),
{
    let t = s.fulfilled(id, value);
    assert forall|j: int| 0 <= j < op.args.len() implies t.results.dom().contains(
        #[trigger] op.args[j] as int,
    ) && t.results[op.args[j] as int] == s.results[op.args[j] as int] by {
        assert(s.results.dom().contains(op.args[j] as int));
    }
    assert(t.arg_values(op) =~= s.arg_values(op));
    if s.effected(op) {
        match op.op_type {
            OperationType::Network { function } => {},
            _ => {
                assert forall|j: int| 0 <= j < op.output_arity implies (match FabricState::gate_output(
                    op,
                    t.arg_values(op),
                    j,
                ) {
                    Some(v) => t.results.dom().contains(#[trigger] output_id(op, j))
                        && t.results[output_id(op, j)] == v,
                    None => true,
                }) by {
                    assert(s.results.dom().contains(output_id(op, j)) ==> s.results[output_id(
                        op,
                        j,
                    )] == t.results[output_id(op, j)]);
                }
            },
        }
    }
}

/// Handing a payload to the outbound queue keeps the effect of every operation
pub proof fn lemma_sent_keeps(s: FabricState, id: ResultId, payload: Value, op: OperationView)
    ensures
        s.sent(id, payload).args_complete(op) == s.args_complete(op),
        s.sent(id, payload).arg_values(op) == s.arg_values(op),
        s.effected(op) ==> s.sent(id, payload).effected(op),
{
    let t = s.sent(id, payload);
    assert(t.arg_values(op) =~= s.arg_values(op));
    if s.effected(op) {
        match op.op_type {
            OperationType::Network { function } => {
                match function.eval_spec(s.arg_values(op)) {
                    Some(p) => {
                        let m = OutboundView { result_id: op.result_id, payload: p };
                        let i = choose|i: int| 0 <= i < s.sent_log.len() && s.sent_log[i] == m;
                        assert(t.sent_log[i] == m);
                    },
                    None => {},
                }
            },
            _ => {},
        }
    }
}

/// Fulfilling a result with the value that its producer yields keeps the
/// resident results sound
pub proof fn lemma_sound_after_fulfil(s: FabricState, id: int, value: Value)
    requires
        s.results_sound(),
        0 <= id < s.kinds.len(),
        !s.results.dom().contains(id),
        s.kinds[id] matches SlotKind::Gate { op, index } ==> s.args_complete(s.ops[op as int])
            && FabricState::gate_output(
            s.ops[op as int],
            s.arg_values(s.ops[op as int]),
            index as int,
        ) == Some(value),
    ensures
        s.fulfilled(id, value).results_sound(),
{
    let t = s.fulfilled(id, value);
    assert forall|i: int| 0 <= i < t.kinds.len() && #[trigger] t.results.dom().contains(
        i,
    ) implies (match t.kinds[i] {
        SlotKind::Gate { op, index } => {
            &&& t.args_complete(t.ops[op as int])
            &&& FabricState::gate_output(
                t.ops[op as int],
                t.arg_values(t.ops[op as int]),
                index as int,
            ) == Some(t.results[i])
        },
        _ => true,
    }) by {
        match t.kinds[i] {
            SlotKind::Gate { op, index } => {
                if i != id {
                    assert(s.results.dom().contains(i));
                }
                lemma_fulfilled_keeps(s, id, value, s.ops[op as int]);
            },
            _ => {},
        }
    }
}

/// Fulfilling a result that was not resident is a step of evaluation
pub proof fn lemma_fulfilled_evolves(s: FabricState, id: int, value: Value)
    requires
        !s.results.dom().contains(id),
    ensures
        s.fulfilled(id, value).evolves_from(s),
{
    lemma_woke_after_fulfil(s, id, value);
    reveal(FabricState::sent_since);
    reveal(FabricState::failed_since);
}

/// Steps of evaluation compose
pub proof fn lemma_evolves_transitive(a: FabricState, b: FabricState, c: FabricState)
    requires
        b.evolves_from(a),
        c.evolves_from(b),
    ensures
        c.evolves_from(a),
{
    assert forall|id: int| #[trigger] a.results.dom().contains(id) implies c.results.dom().contains(
        id,
    ) && c.results[id] == a.results[id] by {
        assert(b.results.dom().contains(id));
    }
    assert forall|id: int| #[trigger] a.early.dom().contains(id) implies c.early.dom().contains(
        id,
    ) && c.early[id] == a.early[id] by {
        assert(b.early.dom().contains(id));
    }
    lemma_woke_transitive(a, b, c);
    lemma_sent_transitive(a, b, c);
    lemma_failed_transitive(a, b, c);
}

/// What became resident over two stretches of evaluation became resident over
/// the two together, from the messages of both
pub proof fn lemma_fulfilled_compose(
    last: FabricState,
    middle: FabricState,
    first: FabricState,
    later: Seq<MessageView>,
    earlier: Seq<MessageView>,
    all: Seq<MessageView>,
)
    requires
        last.fulfilled_from(middle, later),
        middle.fulfilled_from(first, earlier),
        last.kinds == middle.kinds,
        last.keeps_results_of(middle),
        forall|i: int| 0 <= i < later.len() ==> all.contains(#[trigger] later[i]),
        forall|i: int| 0 <= i < earlier.len() ==> all.contains(#[trigger] earlier[i]),
    ensures
        last.fulfilled_from(first, all),
{
    assert forall|id: int| #[trigger]
        last.results.dom().contains(id) && !first.results.dom().contains(id) implies 0 <= id
        < last.kinds.len() && (last.kinds[id] is Gate || (last.kinds[id] == SlotKind::Inbound
        && all.contains(MessageView::Result(id as usize, last.results[id])))) by {
        if middle.results.dom().contains(id) {
            if !(middle.kinds[id] is Gate) {
                let m = MessageView::Result(id as usize, middle.results[id]);
                let i = choose|i: int| 0 <= i < earlier.len() && earlier[i] == m;
                assert(all.contains(earlier[i]));
            }
        } else {
            if !(last.kinds[id] is Gate) {
                let m = MessageView::Result(id as usize, last.results[id]);
                let i = choose|i: int| 0 <= i < later.len() && later[i] == m;
                assert(all.contains(later[i]));
            }
        }
    }
}

/// A change of the state that touches neither the results nor what was handed
/// to the peer keeps the arguments and the effect of every operation
pub proof fn lemma_effect_frame(s: FabricState, t: FabricState, op: OperationView)
    requires
        t.results == s.results,
        s.sent_log.is_prefix_of(t.sent_log),
        t.failed == s.failed,
    ensures
        t.args_complete(op) == s.args_complete(op),
        t.arg_values(op) == s.arg_values(op),
        s.effected(op) ==> t.effected(op),
{
    assert(t.arg_values(op) =~= s.arg_values(op));
    if s.effected(op) {
        match op.op_type {
            OperationType::Network { function } => {
                match function.eval_spec(s.arg_values(op)) {
                    Some(p) => {
                        let m = OutboundView { result_id: op.result_id, payload: p };
                        let i = choose|i: int| 0 <= i < s.sent_log.len() && s.sent_log[i] == m;
                        assert(t.sent_log[i] == m);
                    },
                    None => {},
                }
            },
            _ => {},
        }
    }
}

/// Allocating a value keeps the arguments, the values and the effect of every
/// operation whose arguments were resident
pub proof fn lemma_allocate_keeps(s: FabricState, value: Value, op: OperationView)
    requires
        !s.results.dom().contains(s.next_result_id),
        s.args_complete(op),
    ensures
        s.allocate(value).args_complete(op),
        s.allocate(value).arg_values(op) == s.arg_values(op),
        s.effected(op) ==> s.allocate(value).effected(op),
{
    let t = s.allocate(value);
    assert forall|j: int| 0 <= j < op.args.len() implies t.results.dom().contains(
        #[trigger] op.args[j] as int,
    ) && t.results[op.args[j] as int] == s.results[op.args[j] as int] by {
        assert(s.results.dom().contains(op.args[j] as int));
    }
    assert(t.arg_values(op) =~= s.arg_values(op));
    if s.effected(op) {
        match op.op_type {
            OperationType::Network { function } => {},
            _ => {
                assert forall|j: int| 0 <= j < op.output_arity implies (match FabricState::gate_output(
                    op,
                    t.arg_values(op),
                    j,
                ) {
                    Some(v) => t.results.dom().contains(#[trigger] output_id(op, j))
                        && t.results[output_id(op, j)] == v,
                    None => true,
                }) by {
                    assert(s.results.dom().contains(output_id(op, j)) ==> s.results[output_id(
                        op,
                        j,
                    )] == t.results[output_id(op, j)]);
                }
            },
        }
    }
}

/// A change of the state that touches neither the graph nor the results
/// keeps the resident results sound
pub proof fn lemma_sound_keeps(s: FabricState, t: FabricState)
    requires
        s.results_sound(),
        t.results == s.results,
        t.kinds == s.kinds,
        t.ops == s.ops,
    ensures
        t.results_sound(),
{
    assert forall|i: int| 0 <= i < t.kinds.len() && #[trigger] t.results.dom().contains(
        i,
    ) implies (match t.kinds[i] {
        SlotKind::Gate { op, index } => {
            &&& t.args_complete(t.ops[op as int])
            &&& FabricState::gate_output(
                t.ops[op as int],
                t.arg_values(t.ops[op as int]),
                index as int,
            ) == Some(t.results[i])
        },
        _ => true,
    }) by {
        match t.kinds[i] {
            SlotKind::Gate { op, index } => {
                assert(t.arg_values(t.ops[op as int]) =~= s.arg_values(s.ops[op as int]));
            },
            _ => {},
        }
    }
}

/// A change of the state that only extends the graph, and touches no result,
/// keeps the resident results sound
pub proof fn lemma_sound_frame(s: FabricState, t: FabricState)
    requires
        s.results_sound(),
        s.graph_wf(),
        t.results == s.results,
        s.kinds.is_prefix_of(t.kinds),
        s.ops.is_prefix_of(t.ops),
    ensures
        t.results_sound(),
{
    assert forall|i: int| 0 <= i < t.kinds.len() && #[trigger] t.results.dom().contains(
        i,
    ) implies (match t.kinds[i] {
        SlotKind::Gate { op, index } => {
            &&& t.args_complete(t.ops[op as int])
            &&& FabricState::gate_output(
                t.ops[op as int],
                t.arg_values(t.ops[op as int]),
                index as int,
            ) == Some(t.results[i])
        },
        _ => true,
    }) by {
        assert(s.results.dom().contains(i));
        assert(t.kinds[i] == s.kinds[i]);
        match t.kinds[i] {
            SlotKind::Gate { op, index } => {
                assert(FabricState::kind_wf(s.kinds[i], i, s.ops));
                assert(t.ops[op as int] == s.ops[op as int]);
                assert(t.arg_values(t.ops[op as int]) =~= s.arg_values(s.ops[op as int]));
            },
            _ => {},
        }
    }
}

/// Allocating a value keeps the resident results sound
pub proof fn lemma_sound_after_allocate(s: FabricState, value: Value)
    requires
        s.results_sound(),
        s.graph_wf(),
    ensures
        s.allocate(value).results_sound(),
{
    let t = s.allocate(value);
    assert forall|i: int| 0 <= i < t.kinds.len() && #[trigger] t.results.dom().contains(
        i,
    ) implies (match t.kinds[i] {
        SlotKind::Gate { op, index } => {
            &&& t.args_complete(t.ops[op as int])
            &&& FabricState::gate_output(
                t.ops[op as int],
                t.arg_values(t.ops[op as int]),
                index as int,
            ) == Some(t.results[i])
        },
        _ => true,
    }) by {
        if i != s.next_result_id {
            assert(s.results.dom().contains(i));
            match s.kinds[i] {
                SlotKind::Gate { op, index } => {
                    lemma_allocate_keeps(s, value, s.ops[op as int]);
                },
                _ => {},
            }
        }
    }
}

/// The results that are allocated and not resident are finitely many
pub proof fn lemma_missing_finite(s: FabricState)
    requires
        0 <= s.next_result_id,
    ensures
        s.missing().finite(),
{
    vstd::set_lib::lemma_int_range(0, s.next_result_id);
    vstd::set_lib::lemma_len_difference(
        vstd::set_lib::set_int_range(0, s.next_result_id),
        s.results.dom(),
    );
}

/// Fulfilling an allocated result that was not resident leaves one result
/// fewer to fulfil
pub proof fn lemma_missing_after_fulfil(s: FabricState, id: int, value: Value)
    requires
        0 <= id < s.next_result_id,
        !s.results.dom().contains(id),
    ensures
        s.missing().finite(),
        s.fulfilled(id, value).missing().finite(),
        s.fulfilled(id, value).missing().len() + 1 == s.missing().len(),
{
    lemma_missing_finite(s);
    assert(s.fulfilled(id, value).missing() =~= s.missing().remove(id));
    assert(s.missing().contains(id));
}

/// Fulfilling a result that was not resident wakes the consumers that waited
/// for it, and no others
pub proof fn lemma_woke_after_fulfil(s: FabricState, id: int, value: Value)
    requires
        !s.results.dom().contains(id),
    ensures
        s.fulfilled(id, value).woke(s),
{
    reveal(FabricState::woke);
    let t = s.fulfilled(id, value);
    if s.waiters.dom().contains(id) {
        let tokens = s.waiters[id];
        assert forall|j: int| 0 <= j < tokens.len() implies t.woken.contains(
            #[trigger] tokens[j],
        ) by {
            assert(t.woken[s.woken.len() + j] == tokens[j]);
        }
        assert forall|i: int| s.woken.len() <= i < t.woken.len() implies s.waited_for_one_of(
            t,
            #[trigger] t.woken[i],
        ) by {
            assert(s.waiters[id][i - s.woken.len()] == t.woken[i]);
        }
    }
}

/// A change of the state that touches neither the results, the consumers
/// nor the messages to the peer wakes nobody and sends nothing
pub proof fn lemma_woke_frame(s: FabricState, t: FabricState)
    requires
        t.results == s.results,
        t.waiters == s.waiters,
        t.woken == s.woken,
        t.sent_log == s.sent_log,
    ensures
        t.woke(s),
        t.sent_since(s),
{
    reveal(FabricState::woke);
    reveal(FabricState::sent_since);
}

/// A change of the state that touches neither the results, the consumers,
/// the messages to the peer nor the list of failed operations wakes nobody,
/// sends nothing and finds no failure
pub proof fn lemma_quiet_frame(s: FabricState, t: FabricState)
    requires
        t.results == s.results,
        t.waiters == s.waiters,
        t.woken == s.woken,
        t.sent_log == s.sent_log,
        t.failed == s.failed,
    ensures
        t.woke(s),
        t.sent_since(s),
        t.failed_since(s),
{
    lemma_woke_frame(s, t);
    reveal(FabricState::failed_since);
}

/// Putting an operation whose function fails on its resident arguments on
/// the list of failed operations wakes nobody and sends nothing, and keeps
/// the effects of the other operations
pub proof fn lemma_failure_recorded(s: FabricState, op_id: OperationId, op: OperationView)
    ensures
        s.with_failure(op_id).woke(s),
        s.with_failure(op_id).sent_since(s),
        s.failure(op_id) ==> s.with_failure(op_id).failed_since(s),
        s.with_failure(op_id).args_complete(op) == s.args_complete(op),
        s.with_failure(op_id).arg_values(op) == s.arg_values(op),
        s.effected(op) ==> s.with_failure(op_id).effected(op),
        op.id == op_id && FabricState::fails(op, s.arg_values(op)) ==> s.with_failure(
            op_id,
        ).effected(op),
{
    let t = s.with_failure(op_id);
    lemma_woke_frame(s, t);
    reveal(FabricState::failed_since);
    assert(t.arg_values(op) =~= s.arg_values(op));
    assert(t.failed[s.failed.len() as int] == op_id);
    if s.failure(op_id) {
        assert(t.arg_values(t.ops[op_id as int]) =~= s.arg_values(s.ops[op_id as int]));
    }
    if s.effected(op) && FabricState::fails(op, s.arg_values(op)) {
        let i = choose|i: int| 0 <= i < s.failed.len() && s.failed[i] == op.id;
        assert(t.failed[i] == op.id);
    }
}

/// What failed up to one state, and from there up to a later one, failed
/// up to the later one
pub proof fn lemma_failed_transitive(first: FabricState, middle: FabricState, last: FabricState)
    requires
        middle.failed_since(first),
        last.failed_since(middle),
        last.keeps_results_of(middle),
        last.ops == middle.ops,
        first.failed.is_prefix_of(middle.failed),
        middle.failed.is_prefix_of(last.failed),
    ensures
        last.failed_since(first),
{
    reveal(FabricState::failed_since);
    assert forall|i: int| first.failed.len() <= i < last.failed.len() implies last.failure(
        #[trigger] last.failed[i],
    ) by {
        if i < middle.failed.len() {
            assert(last.failed[i] == middle.failed[i]);
            assert(middle.failure(middle.failed[i]));
            let op = middle.ops[middle.failed[i] as int];
            assert forall|j: int| 0 <= j < op.args.len() implies last.results.dom().contains(
                #[trigger] op.args[j] as int,
            ) && last.results[op.args[j] as int] == middle.results[op.args[j] as int] by {
                assert(middle.results.dom().contains(op.args[j] as int));
            }
            assert(last.arg_values(op) =~= middle.arg_values(op));
        }
    }
}

/// Handing the message of a network operation to the outbound queue wakes
/// nobody, and sends the message of a network operation
pub proof fn lemma_sent_after_send(s: FabricState, k: int, payload: Value)
    requires
        s.message_of(k, OutboundView { result_id: s.ops[k].result_id, payload }),
    ensures
        s.sent(s.ops[k].result_id, payload).woke(s),
        s.sent(s.ops[k].result_id, payload).sent_since(s),
        s.sent(s.ops[k].result_id, payload).failed_since(s),
{
    reveal(FabricState::woke);
    reveal(FabricState::sent_since);
    reveal(FabricState::failed_since);
    let t = s.sent(s.ops[k].result_id, payload);
    let message = OutboundView { result_id: s.ops[k].result_id, payload };
    assert(t.arg_values(t.ops[k]) =~= s.arg_values(s.ops[k]));
    assert forall|i: int| s.sent_log.len() <= i < t.sent_log.len() implies t.from_operation(
        #[trigger] t.sent_log[i],
    ) by {
        assert(t.sent_log[i] == message);
        assert(t.message_of(k, t.sent_log[i]));
    }
}

/// What was sent up to one state, and from there up to a later one, was sent
/// up to the later one
pub proof fn lemma_sent_transitive(first: FabricState, middle: FabricState, last: FabricState)
    requires
        middle.sent_since(first),
        last.sent_since(middle),
        last.keeps_results_of(middle),
        last.ops == middle.ops,
        first.sent_log.is_prefix_of(middle.sent_log),
        middle.sent_log.is_prefix_of(last.sent_log),
    ensures
        last.sent_since(first),
{
    reveal(FabricState::sent_since);
    assert forall|i: int| first.sent_log.len() <= i < last.sent_log.len() implies last.from_operation(
        #[trigger] last.sent_log[i],
    ) by {
        if i < middle.sent_log.len() {
            assert(last.sent_log[i] == middle.sent_log[i]);
            assert(middle.from_operation(middle.sent_log[i]));
            let k = choose|k: int| #[trigger] middle.message_of(k, middle.sent_log[i]);
            let op = middle.ops[k];
            assert forall|j: int| 0 <= j < op.args.len() implies last.results.dom().contains(
                #[trigger] op.args[j] as int,
            ) && last.results[op.args[j] as int] == middle.results[op.args[j] as int] by {
                assert(middle.results.dom().contains(op.args[j] as int));
            }
            assert(last.arg_values(op) =~= middle.arg_values(op));
            assert(last.message_of(k, last.sent_log[i]));
        }
    }
}

/// Who was woken up to one state, and from there up to a later one, was
/// woken up to the later one
pub proof fn lemma_woke_transitive(first: FabricState, middle: FabricState, last: FabricState)
    requires
        middle.woke(first),
        last.woke(middle),
        middle.keeps_results_of(first),
        last.keeps_results_of(middle),
        first.woken.is_prefix_of(middle.woken),
        middle.woken.is_prefix_of(last.woken),
    ensures
        last.woke(first),
{
    reveal(FabricState::woke);
    assert forall|id: int| #[trigger] first.waiters.dom().contains(id) implies (
    if last.results.dom().contains(id) && !first.results.dom().contains(id) {
        !last.waiters.dom().contains(id) && forall|j: int|
            0 <= j < first.waiters[id].len() ==> last.woken.contains(
                #[trigger] first.waiters[id][j],
            )
    } else {
        last.waiters.dom().contains(id) && last.waiters[id] == first.waiters[id]
    }) by {
        if last.results.dom().contains(id) && !first.results.dom().contains(id) {
            if middle.results.dom().contains(id) {
                assert(!middle.waiters.dom().contains(id));
                assert forall|j: int| 0 <= j < first.waiters[id].len() implies last.woken.contains(
                    #[trigger] first.waiters[id][j],
                ) by {
                    let token = first.waiters[id][j];
                    assert(middle.woken.contains(token));
                    let i = choose|i: int| 0 <= i < middle.woken.len() && middle.woken[i] == token;
                    assert(last.woken[i] == token);
                }
            } else {
                assert(middle.waiters.dom().contains(id));
            }
        } else {
            if first.results.dom().contains(id) {
                assert(middle.results.dom().contains(id));
            }
            assert(middle.waiters.dom().contains(id));
        }
    }
    assert forall|id: int| #[trigger] last.waiters.dom().contains(id) implies first.waiters.dom().contains(
        id,
    ) by {
        assert(middle.waiters.dom().contains(id));
    }
    assert forall|i: int| first.woken.len() <= i < last.woken.len() implies first.waited_for_one_of(
        last,
        #[trigger] last.woken[i],
    ) by {
        let token = last.woken[i];
        if i < middle.woken.len() {
            assert(middle.woken[i] == token);
            assert(first.waited_for_one_of(middle, middle.woken[i]));
            let (id, j) = choose|id: int, j: int|
                first.waiters.dom().contains(id) && !first.results.dom().contains(id)
                    && middle.results.dom().contains(id) && 0 <= j < first.waiters[id].len()
                    && #[trigger] first.waiters[id][j] == token;
            assert(last.results.dom().contains(id));
            assert(first.waiters[id][j] == token);
        } else {
            assert(middle.waited_for_one_of(last, last.woken[i]));
            let (id, j) = choose|id: int, j: int|
                middle.waiters.dom().contains(id) && !middle.results.dom().contains(id)
                    && last.results.dom().contains(id) && 0 <= j < middle.waiters[id].len()
                    && #[trigger] middle.waiters[id][j] == token;
            assert(first.waiters.dom().contains(id));
            if first.results.dom().contains(id) {
                assert(middle.results.dom().contains(id));
            }
            assert(middle.waiters[id] == first.waiters[id]);
            assert(first.waiters[id][j] == token);
        }
    }
}

/// An executor handles no more messages than its queue holds
pub proof fn lemma_handled_len_bound(queue: Seq<MessageView>)
    ensures
        handled_len(queue) <= queue.len(),
    decreases queue.len(),
{
    if queue.len() > 0 && !(queue[0] is Shutdown) {
        lemma_handled_len_bound(queue.drop_first());
    }
}

/// A message carries a value for a result exactly if it is the first of a
/// list that holds nothing else
pub proof fn lemma_first_value_single(message: MessageView, id: int)
    ensures
        first_value(seq![message], id) == (match message {
            MessageView::Result(x, value) => if x == id {
                Some(value)
            } else {
                None
            },
            _ => None,
        }),
{
    assert(seq![message].drop_last() =~= Seq::<MessageView>::empty());
    assert(seq![message].last() == message);
    assert(first_value(Seq::<MessageView>::empty(), id) is None);
}

/// A message that is put at the end of a list carries the first value for a
/// result only if none before it carries one
pub proof fn lemma_first_value_push(messages: Seq<MessageView>, message: MessageView, id: int)
    ensures
        first_value(messages.push(message), id) == (match first_value(messages, id) {
            Some(value) => Some(value),
            None => first_value(seq![message], id),
        }),
{
    lemma_first_value_single(message, id);
    assert(messages.push(message).drop_last() =~= messages);
    assert(messages.push(message).last() == message);
}

/// A list holds a message for a result exactly if it has a first value for
/// the result
pub proof fn lemma_first_value_some(messages: Seq<MessageView>, id: int)
    ensures
        first_value(messages, id) is Some <==> exists|i: int|
            0 <= i < messages.len() && carries(#[trigger] messages[i], id),
    decreases messages.len(),
{
    if messages.len() > 0 {
        let shorter = messages.drop_last();
        lemma_first_value_some(shorter, id);
        if first_value(shorter, id) is Some {
            let i = choose|i: int| 0 <= i < shorter.len() && carries(#[trigger] shorter[i], id);
            assert(carries(messages[i], id));
        } else if carries(messages.last(), id) {
            assert(carries(messages[messages.len() - 1], id));
        } else if exists|i: int| 0 <= i < messages.len() && carries(#[trigger] messages[i], id) {
            let i = choose|i: int| 0 <= i < messages.len() && carries(#[trigger] messages[i], id);
            assert(carries(shorter[i], id));
        }
    }
}

/// What was taken in from one list of messages, and then from one more
/// message, was taken in from the list with the message at its end
pub proof fn lemma_delivered_compose(
    last: FabricState,
    middle: FabricState,
    first: FabricState,
    messages: Seq<MessageView>,
    message: MessageView,
)
    requires
        first.kinds.len() <= usize::MAX,
        middle.evolves_from(first),
        last.evolves_from(middle),
        middle.delivered(first, messages),
        middle.fulfilled_from(first, messages),
        last.delivered(middle, seq![message]),
    ensures
        last.delivered(first, messages.push(message)),
{
    let all = messages.push(message);
    assert forall|id: int|
        0 <= id < first.kinds.len() && first.kinds[id] == SlotKind::Inbound
            && !first.results.dom().contains(id) implies (#[trigger] first_value(
        all,
        id,
    ) matches Some(value) ==> last.results.dom().contains(id) && last.results[id] == value) by {
        lemma_first_value_push(messages, message, id);
        match first_value(messages, id) {
            Some(value) => {
                assert(middle.results.dom().contains(id));
            },
            None => {
                lemma_first_value_some(messages, id);
                if middle.results.dom().contains(id) {
                    let m = MessageView::Result(id as usize, middle.results[id]);
                    let i = choose|i: int| 0 <= i < messages.len() && messages[i] == m;
                    assert(carries(messages[i], id));
                }
            },
        }
    }
    assert forall|id: int|
        first.kinds.len() <= id < usize::MAX && !first.early.dom().contains(id) implies (
    #[trigger] first_value(all, id) matches Some(value) ==> last.early.dom().contains(id)
        && last.early[id] == value) by {
        lemma_first_value_push(messages, message, id);
        match first_value(messages, id) {
            Some(value) => {
                assert(middle.early.dom().contains(id));
            },
            None => {},
        }
    }
    assert forall|id: int| #[trigger]
        last.early.dom().contains(id) && !first.early.dom().contains(id) implies first.kinds.len()
        <= id < usize::MAX && first_value(all, id) is Some by {
        lemma_first_value_push(messages, message, id);
    }
}

/// The first value for a result among two lists of messages, one after the
/// other, is the first among those of the first list, if that has one
pub proof fn lemma_first_value_concat(a: Seq<MessageView>, b: Seq<MessageView>, id: int)
    ensures
        first_value(a + b, id) == (match first_value(a, id) {
            Some(value) => Some(value),
            None => first_value(b, id),
        }),
    decreases b.len(),
{
    if b.len() == 0 {
        assert(a + b =~= a);
    } else {
        lemma_first_value_concat(a, b.drop_last(), id);
        assert((a + b).drop_last() =~= a + b.drop_last());
        assert((a + b).last() == b.last());
    }
}

/// What evaluation makes of a state is something that the party has reached
pub proof fn lemma_outcome_reached(s: FabricState, t: FabricState, messages: Seq<MessageView>)
    requires
        t.outcome_of(s, messages),
    ensures
        t.reached(s, messages),
{
}

/// What a party has reached in one run of the executor and then in another
/// it has reached from the start. Between the runs more messages may have
/// been put on the execution queue, and the queues to the peer and to the
/// consumers may have been drained: the state in which the executor resumes
/// holds what the state held in which it stopped.
pub proof fn lemma_reached_composes(
    first: FabricState,
    stopped: FabricState,
    resumed: FabricState,
    last: FabricState,
    earlier: Seq<MessageView>,
    later: Seq<MessageView>,
)
    requires
        first.kinds.len() <= usize::MAX,
        stopped.reached(first, earlier),
        resumed.continues(stopped),
        resumed.results == stopped.results,
        resumed.early == stopped.early,
        last.reached(resumed, later),
    ensures
        last.reached(first, earlier + later),
{
    let all = earlier + later;
    assert forall|id: int| #[trigger] first.results.dom().contains(id) implies last.results.dom().contains(
        id,
    ) && last.results[id] == first.results[id] by {
        assert(stopped.results.dom().contains(id));
        assert(resumed.results.dom().contains(id));
    }
    assert forall|id: int| #[trigger] first.early.dom().contains(id) implies last.early.dom().contains(
        id,
    ) && last.early[id] == first.early[id] by {
        assert(stopped.early.dom().contains(id));
        assert(resumed.early.dom().contains(id));
    }
    assert forall|id: int| #[trigger]
        last.results.dom().contains(id) && !first.results.dom().contains(id) implies 0 <= id
        < last.kinds.len() && (last.kinds[id] is Gate || (last.kinds[id] == SlotKind::Inbound
        && all.contains(MessageView::Result(id as usize, last.results[id])))) by {
        if resumed.results.dom().contains(id) {
            assert(stopped.results.dom().contains(id));
            if !(stopped.kinds[id] is Gate) {
                let m = MessageView::Result(id as usize, stopped.results[id]);
                let i = choose|i: int| 0 <= i < earlier.len() && earlier[i] == m;
                assert(all[i] == m);
            }
        } else {
            if !(last.kinds[id] is Gate) {
                let m = MessageView::Result(id as usize, last.results[id]);
                let i = choose|i: int| 0 <= i < later.len() && later[i] == m;
                assert(all[earlier.len() + i] == m);
            }
        }
    }
    assert forall|id: int|
        0 <= id < first.kinds.len() && first.kinds[id] == SlotKind::Inbound
            && !first.results.dom().contains(id) implies (#[trigger] first_value(
        all,
        id,
    ) matches Some(value) ==> last.results.dom().contains(id) && last.results[id] == value) by {
        lemma_first_value_concat(earlier, later, id);
        match first_value(earlier, id) {
            Some(value) => {
                assert(stopped.results.dom().contains(id));
                assert(resumed.results.dom().contains(id));
            },
            None => {
                lemma_first_value_some(earlier, id);
                if resumed.results.dom().contains(id) {
                    assert(stopped.results.dom().contains(id));
                    let m = MessageView::Result(id as usize, stopped.results[id]);
                    let i = choose|i: int| 0 <= i < earlier.len() && earlier[i] == m;
                    assert(carries(earlier[i], id));
                }
            },
        }
    }
    assert forall|id: int|
        first.kinds.len() <= id < usize::MAX && !first.early.dom().contains(id) implies (
    #[trigger] first_value(all, id) matches Some(value) ==> last.early.dom().contains(id)
        && last.early[id] == value) by {
        lemma_first_value_concat(earlier, later, id);
        match first_value(earlier, id) {
            Some(value) => {
                assert(stopped.early.dom().contains(id));
                assert(resumed.early.dom().contains(id));
            },
            None => {
                if resumed.early.dom().contains(id) {
                    assert(stopped.early.dom().contains(id));
                }
            },
        }
    }
    assert forall|id: int| #[trigger]
        last.early.dom().contains(id) && !first.early.dom().contains(id) implies first.kinds.len()
        <= id < usize::MAX && first_value(all, id) is Some by {
        lemma_first_value_concat(earlier, later, id);
        if resumed.early.dom().contains(id) {
            assert(stopped.early.dom().contains(id));
        }
    }
}

/// If two outcomes of evaluation agree on the results below a resident
/// result of the one, the result is resident in the other, with the same value
proof fn lemma_outcome_step(
    s: FabricState,
    a: FabricState,
    b: FabricState,
    messages: Seq<MessageView>,
    id: int,
)
    requires
        s.graph_wf(),
        forall|k: int| 0 <= k < s.ops.len() ==> FabricState::causal(#[trigger] s.ops[k]),
        a.reached(s, messages),
        b.reached(s, messages),
        a.results.dom().contains(id),
        0 <= id < s.next_result_id,
        forall|other: int|
            0 <= other < id && #[trigger] a.results.dom().contains(other)
                ==> b.results.dom().contains(other) && b.results[other] == a.results[other],
    ensures
        b.results.dom().contains(id),
        b.results[id] == a.results[id],
{
    if s.results.dom().contains(id) {
    } else {
        match s.kinds[id] {
            SlotKind::Gate { op, index } => {
                let producer = s.ops[op as int];
                assert(FabricState::kind_wf(s.kinds[id], id, s.ops));
                assert(FabricState::causal(producer));
                assert forall|j: int| 0 <= j < producer.args.len() implies b.results.dom().contains(
                    #[trigger] producer.args[j] as int,
                ) && b.results[producer.args[j] as int] == a.results[producer.args[j] as int] by {
                    assert(a.results.dom().contains(producer.args[j] as int));
                    assert(producer.args[j] < producer.result_id);
                }
                assert(b.arg_values(producer) =~= a.arg_values(producer));
                assert(b.args_complete(producer));
                assert(b.effected(producer));
                assert(output_id(producer, index as int) == id);
            },
            SlotKind::Inbound => {
                let message = MessageView::Result(id as usize, a.results[id]);
                let i = choose|i: int| 0 <= i < messages.len() && messages[i] == message;
                assert(carries(messages[i], id));
                lemma_first_value_some(messages, id);
            },
            SlotKind::Value => {},
        }
    }
}

/// Two outcomes of evaluation agree on the results below any identifier
proof fn lemma_outcome_below(
    s: FabricState,
    a: FabricState,
    b: FabricState,
    messages: Seq<MessageView>,
    bound: nat,
)
    requires
        s.graph_wf(),
        forall|k: int| 0 <= k < s.ops.len() ==> FabricState::causal(#[trigger] s.ops[k]),
        a.reached(s, messages),
        b.reached(s, messages),
        bound <= s.next_result_id,
    ensures
        forall|id: int|
            0 <= id < bound && #[trigger] a.results.dom().contains(id) ==> b.results.dom().contains(
                id,
            ) && b.results[id] == a.results[id],
        forall|id: int|
            0 <= id < bound && #[trigger] b.results.dom().contains(id) ==> a.results.dom().contains(
                id,
            ) && a.results[id] == b.results[id],
    decreases bound,
{
    if bound > 0 {
        let last = bound - 1;
        lemma_outcome_below(s, a, b, messages, last as nat);
        if a.results.dom().contains(last) {
            lemma_outcome_step(s, a, b, messages, last);
        }
        if b.results.dom().contains(last) {
            lemma_outcome_step(s, b, a, messages, last);
        }
    }
}

/// The outcome of evaluation is determined. Whatever the order in which the
/// operations of a graph are evaluated, and in however many runs of the
/// executor, two states that a party has reached from the same state and the
/// same messages hold the same results, provided that every operation refers
/// only to results allocated before its own.
pub proof fn lemma_outcome_determined(
    s: FabricState,
    a: FabricState,
    b: FabricState,
    messages: Seq<MessageView>,
)
    requires
        s.graph_wf(),
        forall|k: int| 0 <= k < s.ops.len() ==> FabricState::causal(#[trigger] s.ops[k]),
        a.reached(s, messages),
        b.reached(s, messages),
        a.graph_wf(),
        b.graph_wf(),
    ensures
        a.results == b.results,
{
    lemma_outcome_below(s, a, b, messages, s.next_result_id as nat);
    assert(a.results =~= b.results);
}

} // verus!
