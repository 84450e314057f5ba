//! What the parties open: the laws that follow a shared value through the
//! graphs of both parties, from the shares that each of them holds to the
//! value that both of them see

use vstd::prelude::*;

use crate::fabric::gate::GateFunction;
use crate::fabric::gate::NetworkFunction;
use crate::fabric::parties::paired;
use crate::fabric::parties::Course;
use crate::fabric::parties::lemma_declarations_follow;
use crate::fabric::parties::lemma_evaluated;
use crate::fabric::parties::lemma_extends_transitive;
use crate::fabric::parties::lemma_follows_transitive;
use crate::fabric::parties::lemma_received;
use crate::fabric::parties::lemma_sent;
use crate::fabric::result::ResultId;
use crate::fabric::result::Value;
use crate::fabric::FabricState;
use crate::fabric::OperationType;
use crate::fabric::SlotKind;
use crate::network::OutboundView;
use crate::PARTY0;

verus! {

/// Opening a shared value declares three results: the first party sends its
/// share under the first and awaits the peer's under the second, the other
/// party the other way round, and a gate adds the first party's share to the
/// other's under the third
pub proof fn lemma_opened_graph(s: FabricState, share: ResultId)
    requires
        s.bounded(),
        s.quiet_ahead(),
        s.has_room(3),
    ensures
        s.opened(share).follows(s, 3, 2),
        s.opened(share).kinds[s.exchanged_id()] == SlotKind::Inbound,
        ({
            let send = s.opened(share).ops[s.ops.len() as int];
            &&& send.op_type == (OperationType::Network { function: NetworkFunction::SendArgument })
            &&& send.args == seq![share]
            &&& send.result_id == (if s.party_id == PARTY0 {
                s.next_result_id
            } else {
                s.next_result_id + 1
            })
        }),
        ({
            let add = s.opened(share).ops[s.ops.len() as int + 1];
            &&& add.op_type == (OperationType::Gate { function: GateFunction::Add })
            &&& add.args == (if s.party_id == PARTY0 {
                seq![share, s.exchanged_id() as usize]
            } else {
                seq![s.exchanged_id() as usize, share]
            })
            &&& add.result_id == s.next_result_id + 2
            &&& add.output_arity == 1
        }),
{
    reveal(FabricState::opened);
    reveal(FabricState::next_op);
    reveal(FabricState::next_kinds);
    let unit = Value::Bytes(Seq::empty());
    let send = OperationType::Network { function: NetworkFunction::SendArgument };
    let add = OperationType::Gate { function: GateFunction::Add };
    let peer = s.exchanged_id() as usize;
    if s.party_id == PARTY0 {
        let s1 = s.with_network_op(seq![share], NetworkFunction::SendArgument);
        let s2 = s1.receive();
        let s3 = s2.with_gate(seq![share, peer], GateFunction::Add);
        lemma_declarations_follow(s, unit, unit, seq![share], 1, send);
        lemma_declarations_follow(s1, unit, unit, seq![share], 1, send);
        lemma_declarations_follow(s2, unit, unit, seq![share, peer], 1, add);
        lemma_follows_transitive(s, s1, s2, 1, 1, 1, 0);
        lemma_follows_transitive(s, s2, s3, 2, 1, 1, 1);
        assert(s3 == s.opened(share));
    } else {
        let s1 = s.receive();
        let s2 = s1.with_network_op(seq![share], NetworkFunction::SendArgument);
        let s3 = s2.with_gate(seq![peer, share], GateFunction::Add);
        lemma_declarations_follow(s, unit, unit, seq![share], 1, send);
        lemma_declarations_follow(s1, unit, unit, seq![share], 1, send);
        lemma_declarations_follow(s2, unit, unit, seq![peer, share], 1, add);
        lemma_follows_transitive(s, s1, s2, 1, 0, 1, 1);
        lemma_follows_transitive(s, s2, s3, 2, 1, 1, 1);
        assert(s3 == s.opened(share));
    }
}

/// A gate follows the state in which it is declared
pub proof fn lemma_gate_follows(s: FabricState, args: Seq<ResultId>, function: GateFunction)
    requires
        s.bounded(),
        s.quiet_ahead(),
        s.has_room(1),
    ensures
        s.with_gate(args, function).follows(s, 1, 1),
{
    let unit = Value::Bytes(Seq::empty());
    lemma_declarations_follow(s, unit, unit, args, 1, OperationType::Gate { function });
}

/// The result of a gate is the value of its function on the values of its
/// arguments, once the party has settled and the arguments are resident
pub proof fn lemma_gate_settled(
    course: Course,
    from_peer: Seq<OutboundView>,
    room: int,
    args: Seq<ResultId>,
    function: GateFunction,
    values: Seq<Value>,
    value: Value,
)
    requires
        course.proceeds(from_peer, room),
        room >= 1,
        course.declared.extends(course.before.with_gate(args, function)),
        values.len() == args.len(),
        forall|j: int| 0 <= j < args.len() ==> (#[trigger] args[j]) < course.before.next_result_id,
        forall|j: int|
            0 <= j < args.len() ==> course.settled.results.dom().contains(
                #[trigger] args[j] as int,
            ) && course.settled.results[args[j] as int] == values[j],
        function.eval_spec(values) == Some(value),
    ensures
        course.settled.results.dom().contains(course.before.next_result_id),
        course.settled.results[course.before.next_result_id] == value,
{
    reveal(Course::proceeds);
    reveal(FabricState::next_op);
    let s = course.before;
    let settled = course.settled;
    lemma_gate_follows(s, args, function);
    let k = s.next_op_id;
    let gate = s.with_gate(args, function);
    assert(gate.ops[k] == s.next_op(args, 1, OperationType::Gate { function }));
    assert(course.declared.ops[k] == gate.ops[k]);
    assert(settled.ops[k] == course.declared.ops[k]);
    let op = settled.ops[k];
    assert(op.args == args);
    assert(settled.arg_values(op) =~= values);
    lemma_evaluated(settled, k, 0, value);
}

/// Opening a shared value gives both parties the sum of their shares. Two
/// parties that have allocated as many results declare the opening of the
/// value whose shares they hold under the same identifier, and whatever
/// else; once each has evaluated its graph and taken in what the other has
/// sent, the opened value of both is the first party's share plus the other's.
pub proof fn lemma_opening(first: Course, second: Course, share: ResultId, value: Value)
    requires
        paired(first, second, 3),
        first.declared.extends(first.before.opened(share)),
        second.declared.extends(second.before.opened(share)),
        share < first.before.next_result_id,
        first.settled.results.dom().contains(share as int),
        second.settled.results.dom().contains(share as int),
        Value::sum(first.settled.results[share as int], second.settled.results[share as int])
            == Some(value),
    ensures
        first.settled.results.dom().contains(first.before.next_result_id + 2),
        first.settled.results[first.before.next_result_id + 2] == value,
        second.settled.results.dom().contains(first.before.next_result_id + 2),
        second.settled.results[first.before.next_result_id + 2] == value,
{
    reveal(Course::proceeds);
    lemma_opening_of(
        first.start,
        first.before,
        first.declared,
        first.settled,
        second.start,
        second.before,
        second.declared,
        second.settled,
        share,
        value,
    );
}

/// The same, of the states of the two courses
proof fn lemma_opening_of(
    first_start: FabricState,
    first: FabricState,
    first_declared: FabricState,
    first_settled: FabricState,
    second_start: FabricState,
    second: FabricState,
    second_declared: FabricState,
    second_settled: FabricState,
    share: ResultId,
    value: Value,
)
    requires
        first_start.graph_wf(),
        first_start.quiet_ahead(),
        first.extends(first_start),
        first.bounded(),
        first.quiet_ahead(),
        first.has_room(3),
        first.party_id == PARTY0,
        first_declared.extends(first.opened(share)),
        second_start.graph_wf(),
        second_start.quiet_ahead(),
        second.extends(second_start),
        second.bounded(),
        second.quiet_ahead(),
        second.has_room(3),
        second.party_id != PARTY0,
        second_declared.extends(second.opened(share)),
        first.next_result_id == second.next_result_id,
        share < first.next_result_id,
        first_settled.settled(
            first_declared,
            second_settled.sent_log.skip(second_start.sent_log.len() as int),
        ),
        second_settled.settled(
            second_declared,
            first_settled.sent_log.skip(first_start.sent_log.len() as int),
        ),
        first_settled.results.dom().contains(share as int),
        second_settled.results.dom().contains(share as int),
        Value::sum(first_settled.results[share as int], second_settled.results[share as int])
            == Some(value),
    ensures
        first_settled.results.dom().contains(first.next_result_id + 2),
        first_settled.results[first.next_result_id + 2] == value,
        second_settled.results.dom().contains(first.next_result_id + 2),
        second_settled.results[first.next_result_id + 2] == value,
{
    let from_first = first_settled.sent_log.skip(first_start.sent_log.len() as int);
    let from_second = second_settled.sent_log.skip(second_start.sent_log.len() as int);
    let mine = first_settled.results[share as int];
    let theirs = second_settled.results[share as int];
    // Each party hands its share over
    lemma_share_sent(first_start, first, first_declared, first_settled, from_second, share);
    lemma_share_sent(second_start, second, second_declared, second_settled, from_first, share);
    // and takes the other's in, and both add the first party's share to the
    // other's
    lemma_share_received(
        first_start,
        first,
        first_declared,
        first_settled,
        from_second,
        share,
        theirs,
        value,
    );
    lemma_share_received(
        second_start,
        second,
        second_declared,
        second_settled,
        from_first,
        share,
        mine,
        value,
    );
}

/// A party that opens a value hands its share over, under the first of the
/// results of the opening if it is the first party, under the second if it is
/// not
proof fn lemma_share_sent(
    start: FabricState,
    before: FabricState,
    declared: FabricState,
    settled: FabricState,
    from_peer: Seq<OutboundView>,
    share: ResultId,
)
    requires
        start.graph_wf(),
        before.extends(start),
        before.bounded(),
        before.quiet_ahead(),
        before.has_room(3),
        declared.extends(before.opened(share)),
        share < before.next_result_id,
        settled.settled(declared, from_peer),
        settled.results.dom().contains(share as int),
    ensures
        settled.sent_log.skip(start.sent_log.len() as int).contains(
            OutboundView {
                result_id: (if before.party_id == PARTY0 {
                    before.next_result_id
                } else {
                    before.next_result_id + 1
                }) as usize,
                payload: settled.results[share as int],
            },
        ),
        FabricState::sends_distinct(settled.sent_log.skip(start.sent_log.len() as int)),
{
    let a = before.opened(share);
    let n = before.ops.len() as int;
    lemma_opened_graph(before, share);
    lemma_extends_transitive(start, before, a);
    lemma_extends_transitive(start, a, declared);
    assert(declared.ops[n] == a.ops[n]);
    lemma_sent(start, declared, settled, from_peer, n);
}

/// A party that opens a value takes the peer's share in, and holds the sum
/// of the first party's share and the other's under the last result of the
/// opening
proof fn lemma_share_received(
    start: FabricState,
    before: FabricState,
    declared: FabricState,
    settled: FabricState,
    from_peer: Seq<OutboundView>,
    share: ResultId,
    theirs: Value,
    value: Value,
)
    requires
        start.graph_wf(),
        start.quiet_ahead(),
        before.extends(start),
        before.bounded(),
        before.quiet_ahead(),
        before.has_room(3),
        declared.extends(before.opened(share)),
        share < before.next_result_id,
        settled.settled(declared, from_peer),
        settled.results.dom().contains(share as int),
        FabricState::sends_distinct(from_peer),
        from_peer.contains(
            OutboundView { result_id: before.exchanged_id() as usize, payload: theirs },
        ),
        value == (if before.party_id == PARTY0 {
            Value::sum(settled.results[share as int], theirs)
        } else {
            Value::sum(theirs, settled.results[share as int])
        }).unwrap(),
        (if before.party_id == PARTY0 {
            Value::sum(settled.results[share as int], theirs)
        } else {
            Value::sum(theirs, settled.results[share as int])
        }) is Some,
    ensures
        settled.results.dom().contains(before.next_result_id + 2),
        settled.results[before.next_result_id + 2] == value,
{
    let a = before.opened(share);
    let n = before.ops.len() as int;
    let peer = before.exchanged_id();
    lemma_opened_graph(before, share);
    lemma_extends_transitive(start, before, a);
    lemma_extends_transitive(start, a, declared);
    assert(settled.ops == declared.ops);
    assert(declared.ops[n + 1] == a.ops[n + 1]);
    assert(declared.kinds[peer] == a.kinds[peer]);
    lemma_received(start, declared, settled, from_peer, peer, theirs);
    let add = settled.ops[n + 1];
    assert(FabricState::causal(add));
    if before.party_id == PARTY0 {
        assert(settled.arg_values(add) =~= seq![settled.results[share as int], theirs]);
    } else {
        assert(settled.arg_values(add) =~= seq![theirs, settled.results[share as int]]);
    }
    lemma_evaluated(settled, n + 1, 0, value);
}

/// An exchange declares two results: the first party sends its value under
/// the first and awaits the peer's under the second, the other party the
/// other way round
pub proof fn lemma_exchange_graph(s: FabricState, arg: ResultId)
    requires
        s.bounded(),
        s.quiet_ahead(),
        s.has_room(2),
    ensures
        s.exchange(seq![arg], NetworkFunction::SendArgument).follows(s, 2, 1),
        s.exchange(seq![arg], NetworkFunction::SendArgument).kinds[s.exchanged_id()]
            == SlotKind::Inbound,
        ({
            let send = s.exchange(seq![arg], NetworkFunction::SendArgument).ops[s.ops.len() as int];
            &&& send.op_type == (OperationType::Network { function: NetworkFunction::SendArgument })
            &&& send.args == seq![arg]
            &&& send.result_id == (if s.party_id == PARTY0 {
                s.next_result_id
            } else {
                s.next_result_id + 1
            })
        }),
{
    reveal(FabricState::next_op);
    reveal(FabricState::next_kinds);
    let unit = Value::Bytes(Seq::empty());
    let send = OperationType::Network { function: NetworkFunction::SendArgument };
    if s.party_id == PARTY0 {
        let s1 = s.with_network_op(seq![arg], NetworkFunction::SendArgument);
        lemma_declarations_follow(s, unit, unit, seq![arg], 1, send);
        lemma_declarations_follow(s1, unit, unit, seq![arg], 1, send);
        lemma_follows_transitive(s, s1, s1.receive(), 1, 1, 1, 0);
    } else {
        let s1 = s.receive();
        lemma_declarations_follow(s, unit, unit, seq![arg], 1, send);
        lemma_declarations_follow(s1, unit, unit, seq![arg], 1, send);
        lemma_follows_transitive(
            s,
            s1,
            s1.with_network_op(seq![arg], NetworkFunction::SendArgument),
            1,
            0,
            1,
            1,
        );
    }
}

/// An exchange gives each party the value of the other. Two parties that
/// have allocated as many results exchange the values that they hold under
/// the same identifier; once each has evaluated its graph and taken in what
/// the other has sent, each holds the other's value under the result of the
/// exchange.
pub proof fn lemma_exchanged(first: Course, second: Course, arg: ResultId)
    requires
        paired(first, second, 2),
        first.declared.extends(first.before.exchange(seq![arg], NetworkFunction::SendArgument)),
        second.declared.extends(second.before.exchange(seq![arg], NetworkFunction::SendArgument)),
        arg < first.before.next_result_id,
        first.settled.results.dom().contains(arg as int),
        second.settled.results.dom().contains(arg as int),
    ensures
        first.settled.results.dom().contains(first.before.next_result_id + 1),
        first.settled.results[first.before.next_result_id + 1] == second.settled.results[arg as int],
        second.settled.results.dom().contains(first.before.next_result_id),
        second.settled.results[first.before.next_result_id as int]
            == first.settled.results[arg as int],
{
    reveal(Course::proceeds);
    let x = first.before.next_result_id;
    let a = first.before.exchange(seq![arg], NetworkFunction::SendArgument);
    let b = second.before.exchange(seq![arg], NetworkFunction::SendArgument);
    let n = first.before.ops.len() as int;
    let m = second.before.ops.len() as int;
    lemma_exchange_graph(first.before, arg);
    lemma_exchange_graph(second.before, arg);
    lemma_extends_transitive(first.start, first.before, a);
    lemma_extends_transitive(first.start, a, first.declared);
    lemma_extends_transitive(second.start, second.before, b);
    lemma_extends_transitive(second.start, b, second.declared);
    assert(first.declared.ops[n] == a.ops[n]);
    assert(second.declared.ops[m] == b.ops[m]);
    assert(first.declared.kinds[x + 1] == a.kinds[x + 1]);
    assert(second.declared.kinds[x] == b.kinds[x]);
    lemma_sent(first.start, first.declared, first.settled, second.sent(), n);
    lemma_sent(second.start, second.declared, second.settled, first.sent(), m);
    lemma_received(
        first.start,
        first.declared,
        first.settled,
        second.sent(),
        x + 1,
        second.settled.results[arg as int],
    );
    lemma_received(
        second.start,
        second.declared,
        second.settled,
        first.sent(),
        x,
        first.settled.results[arg as int],
    );
}

} // verus!
