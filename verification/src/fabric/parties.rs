//! What two parties come to: each declares its graph, evaluates it, and takes
//! in what the other sends. The lemmas of this module follow a value from the
//! graph of the one party, over the messages, into the graph of the other.

use vstd::prelude::*;

use crate::fabric::evaluation::lemma_first_value_concat;
use crate::fabric::evaluation::lemma_first_value_some;
use crate::fabric::carries;
use crate::fabric::first_value;
use crate::fabric::gate::NetworkFunction;
use crate::fabric::output_id;
use crate::fabric::result::ResultId;
use crate::fabric::result::Value;
use crate::fabric::FabricState;
use crate::fabric::MessageView;
use crate::fabric::OperationType;
use crate::fabric::SlotKind;
use crate::network::OutboundView;
use crate::PARTY0;

verus! {

/// The messages that the executor of a party gets from the messages that
/// the peer has handed over, in their order
pub open spec fn inbound_of(log: Seq<OutboundView>) -> Seq<MessageView> {
    Seq::new(log.len(), |i: int| MessageView::Result(log[i].result_id, log[i].payload))
}

impl FabricState {
    /// Whether nothing from the peer is there for a result that has not been
    /// allocated: no value is held for one, and no message on the execution
    /// queue carries one
    pub open spec fn quiet_ahead(self) -> bool {
        &&& forall|id: int| #[trigger] self.early.dom().contains(id) ==> id < self.next_result_id
        &&& forall|i: int, id: int|
            0 <= i < self.queue.len() && #[trigger] carries(self.queue[i], id) ==> id
                < self.next_result_id
    }

    /// Whether every result that is resident has been allocated, and every
    /// result that has been allocated has its producer on record
    pub open spec fn bounded(self) -> bool {
        &&& 0 <= self.next_result_id <= usize::MAX
        &&& 0 <= self.next_op_id <= usize::MAX
        &&& self.kinds.len() == self.next_result_id
        &&& self.ops.len() == self.next_op_id
        &&& forall|id: int| #[trigger]
            self.results.dom().contains(id) ==> 0 <= id < self.next_result_id
    }

    /// Whether this state has come from an earlier one by declarations alone:
    /// what was allocated, declared, resident, sent and queued still is, the
    /// results that have become resident are new ones, and only operations
    /// have been put on the execution queue
    pub open spec fn extends(self, earlier: FabricState) -> bool {
        &&& self.party_id == earlier.party_id
        &&& earlier.next_result_id <= self.next_result_id
        &&& earlier.kinds.len() == earlier.next_result_id
        &&& self.kinds.len() == self.next_result_id
        &&& earlier.kinds.is_prefix_of(self.kinds)
        &&& earlier.ops.is_prefix_of(self.ops)
        &&& forall|k: int|
            earlier.ops.len() <= k < self.ops.len() ==> (#[trigger] self.ops[k]).result_id
                >= earlier.next_result_id
        &&& self.keeps_results_of(earlier)
        &&& forall|id: int| #[trigger]
            self.results.dom().contains(id) && !earlier.results.dom().contains(id)
                ==> earlier.next_result_id <= id < self.next_result_id && self.kinds[id]
                == SlotKind::Value
        &&& earlier.sent_log.is_prefix_of(self.sent_log)
        &&& forall|i: int|
            earlier.sent_log.len() <= i < self.sent_log.len() ==> (#[trigger] self.sent_log[i]).result_id
                >= earlier.next_result_id
        &&& self.early == earlier.early
        &&& earlier.queue.is_prefix_of(self.queue)
        &&& forall|i: int|
            earlier.queue.len() <= i < self.queue.len() ==> #[trigger] self.queue[i] is Op
    }

    /// Whether this state has come from an earlier one by declarations that
    /// allocated `ids` results and declared `ops` operations, and further
    /// declarations can follow
    pub open spec fn follows(self, earlier: FabricState, ids: int, ops: int) -> bool {
        &&& self.extends(earlier)
        &&& self.bounded()
        &&& self.quiet_ahead()
        &&& self.next_result_id == earlier.next_result_id + ids
        &&& self.next_op_id == earlier.next_op_id + ops
    }

    /// Whether this state is what a party comes to from the graph that it has
    /// declared, once it has taken in the messages that its peer has handed
    /// over, and nothing is left to do
    pub open spec fn settled(self, declared: FabricState, from_peer: Seq<OutboundView>) -> bool {
        &&& self.graph_wf()
        &&& self.reached(declared, declared.queue + inbound_of(from_peer))
    }
}

/// The course of a party through a protocol: the state from which the
/// messages to the peer are counted, the state before the declarations at
/// hand, the state after all declarations, and the state in which the party
/// has settled
pub struct Course {
    /// The state from which the messages to the peer are counted
    pub start: FabricState,
    /// The state before the declarations at hand
    pub before: FabricState,
    /// The state after all declarations
    pub declared: FabricState,
    /// The state in which the party has settled
    pub settled: FabricState,
}

impl Course {
    /// The same course, seen from another state before the declarations at
    /// hand
    pub open spec fn at(self, before: FabricState) -> Course {
        Course { before, ..self }
    }

    /// The messages that the party has handed over since the start
    pub open spec fn sent(self) -> Seq<OutboundView> {
        self.settled.sent_log.skip(self.start.sent_log.len() as int)
    }

    /// Whether the course is one that a party can take: nothing from the
    /// peer is ahead of it at the start, the state before the declarations at
    /// hand has come from the start by declarations and has room for `room`
    /// more, and the party has settled on what it has declared and on what
    /// the peer has handed over
    #[verifier::opaque]
    pub open spec fn proceeds(self, from_peer: Seq<OutboundView>, room: int) -> bool {
        &&& self.start.graph_wf()
        &&& self.start.quiet_ahead()
        &&& self.before.extends(self.start)
        &&& self.before.bounded()
        &&& self.before.quiet_ahead()
        &&& self.before.has_room(room)
        &&& self.settled.settled(self.declared, from_peer)
    }
}

/// Whether two courses are those of the two parties of a protocol: each
/// party has settled on what the other has handed over, and the two have
/// allocated as many results before the declarations at hand
pub open spec fn paired(first: Course, second: Course, room: int) -> bool {
    &&& first.proceeds(second.sent(), room)
    &&& second.proceeds(first.sent(), room)
    &&& first.before.party_id == PARTY0
    &&& second.before.party_id != PARTY0
    &&& first.before.next_result_id == second.before.next_result_id
}

/// A course proceeds from a later state as well, if the declarations up to
/// that state leave enough room
pub proof fn lemma_proceeds_at(
    course: Course,
    from_peer: Seq<OutboundView>,
    room: int,
    before: FabricState,
    ids: int,
    ops: int,
    less_room: int,
)
    requires
        course.proceeds(from_peer, room),
        before.follows(course.before, ids, ops),
        ids + less_room <= room,
        ops + less_room <= room,
    ensures
        course.at(before).proceeds(from_peer, less_room),
{
    reveal(Course::proceeds);
    lemma_extends_transitive(course.start, course.before, before);
}

/// Two courses are paired from later states as well, if the parties have
/// made the same declarations up to those states, and these leave enough room
pub proof fn lemma_paired_at(
    first: Course,
    second: Course,
    room: int,
    first_before: FabricState,
    second_before: FabricState,
    ids: int,
    ops: int,
    less_room: int,
)
    requires
        paired(first, second, room),
        first_before.follows(first.before, ids, ops),
        second_before.follows(second.before, ids, ops),
        ids + less_room <= room,
        ops + less_room <= room,
    ensures
        paired(first.at(first_before), second.at(second_before), less_room),
{
    lemma_proceeds_at(first, second.sent(), room, first_before, ids, ops, less_room);
    lemma_proceeds_at(second, first.sent(), room, second_before, ids, ops, less_room);
}

/// What extends a state that extends another extends the other
pub proof fn lemma_extends_transitive(first: FabricState, middle: FabricState, last: FabricState)
    requires
        middle.extends(first),
        last.extends(middle),
    ensures
        last.extends(first),
{
    assert forall|id: int| #[trigger] first.results.dom().contains(id) implies last.results.dom().contains(
        id,
    ) && last.results[id] == first.results[id] by {
        assert(middle.results.dom().contains(id));
    }
    assert forall|k: int| first.ops.len() <= k < last.ops.len() implies (#[trigger] last.ops[k]).result_id
        >= first.next_result_id by {
        if k < middle.ops.len() {
            assert(last.ops[k] == middle.ops[k]);
        }
    }
    assert forall|id: int| #[trigger]
        last.results.dom().contains(id) && !first.results.dom().contains(id) implies first.next_result_id
        <= id < last.next_result_id && last.kinds[id] == SlotKind::Value by {
        if middle.results.dom().contains(id) {
            assert(last.kinds[id] == middle.kinds[id]);
        }
    }
    assert forall|i: int| first.sent_log.len() <= i < last.sent_log.len() implies (
    #[trigger] last.sent_log[i]).result_id >= first.next_result_id by {
        if i < middle.sent_log.len() {
            assert(last.sent_log[i] == middle.sent_log[i]);
        }
    }
    assert forall|i: int| first.queue.len() <= i < last.queue.len() implies #[trigger] last.queue[i]
        is Op by {
        if i < middle.queue.len() {
            assert(last.queue[i] == middle.queue[i]);
        }
    }
}

/// Declarations that follow one another add up
pub proof fn lemma_follows_transitive(
    first: FabricState,
    middle: FabricState,
    last: FabricState,
    ids: int,
    ops: int,
    more_ids: int,
    more_ops: int,
)
    requires
        middle.follows(first, ids, ops),
        last.follows(middle, more_ids, more_ops),
    ensures
        last.follows(first, ids + more_ids, ops + more_ops),
{
    lemma_extends_transitive(first, middle, last);
}

/// Each declaration follows the state in which it is made
pub proof fn lemma_declarations_follow(
    s: FabricState,
    value: Value,
    other: Value,
    args: Seq<ResultId>,
    arity: int,
    op_type: OperationType,
)
    requires
        s.bounded(),
        s.quiet_ahead(),
        arity >= 1,
        s.next_result_id + arity <= usize::MAX,
        s.next_op_id < usize::MAX,
    ensures
        s.allocate(value).follows(s, 1, 0),
        s.allocate_shared(value, other).follows(s, 1, 0),
        s.receive().follows(s, 1, 0),
        s.with_op(args, arity, op_type).follows(s, arity, 1),
{
    reveal(FabricState::next_kinds);
    reveal(FabricState::next_op);
    let declared = s.with_op(args, arity, op_type);
    assert(declared.queue[s.queue.len() as int] is Op);
    assert forall|i: int, id: int|
        0 <= i < declared.queue.len() && #[trigger] carries(declared.queue[i], id) implies id
        < declared.next_result_id by {
        if i < s.queue.len() {
            assert(carries(s.queue[i], id));
        }
    }
}

/// Of messages that are tagged with different results, each is the first
/// for its result
pub proof fn lemma_first_value_distinct(log: Seq<OutboundView>, i: int)
    requires
        FabricState::sends_distinct(log),
        0 <= i < log.len(),
    ensures
        first_value(inbound_of(log), log[i].result_id as int) == Some(log[i].payload),
    decreases log.len(),
{
    reveal(FabricState::sends_distinct);
    let id = log[i].result_id as int;
    let shorter = log.drop_last();
    assert(inbound_of(log).drop_last() =~= inbound_of(shorter));
    assert(inbound_of(log).last() == MessageView::Result(log.last().result_id, log.last().payload));
    if i == log.len() - 1 {
        lemma_first_value_some(inbound_of(shorter), id);
        if first_value(inbound_of(shorter), id) is Some {
            let j = choose|j: int|
                0 <= j < inbound_of(shorter).len() && carries(#[trigger] inbound_of(shorter)[j], id);
            assert(log[j].result_id == log[i].result_id);
        }
    } else {
        assert(FabricState::sends_distinct(shorter)) by {
            assert forall|a: int, b: int| 0 <= a < b < shorter.len() implies (
            #[trigger] shorter[a]).result_id != (#[trigger] shorter[b]).result_id by {
                assert(log[a].result_id != log[b].result_id);
            }
        }
        assert(shorter[i] == log[i]);
        lemma_first_value_distinct(shorter, i);
    }
}

/// A value that the peer has handed over for a result that a party awaits
/// from it is the result, once the party has settled
pub proof fn lemma_received(
    start: FabricState,
    declared: FabricState,
    settled: FabricState,
    from_peer: Seq<OutboundView>,
    id: int,
    value: Value,
)
    requires
        start.graph_wf(),
        start.quiet_ahead(),
        declared.extends(start),
        start.next_result_id <= id < declared.next_result_id,
        declared.kinds[id] == SlotKind::Inbound,
        FabricState::sends_distinct(from_peer),
        from_peer.contains(OutboundView { result_id: id as usize, payload: value }),
        id <= usize::MAX,
        settled.settled(declared, from_peer),
    ensures
        settled.results.dom().contains(id),
        settled.results[id] == value,
{
    let i = choose|i: int|
        0 <= i < from_peer.len() && from_peer[i] == (OutboundView {
            result_id: id as usize,
            payload: value,
        });
    lemma_first_value_distinct(from_peer, i);
    lemma_first_value_concat(declared.queue, inbound_of(from_peer), id);
    lemma_first_value_some(declared.queue, id);
    if first_value(declared.queue, id) is Some {
        let j = choose|j: int| 0 <= j < declared.queue.len() && carries(#[trigger] declared.queue[j], id);
        if j < start.queue.len() {
            assert(declared.queue[j] == start.queue[j]);
            assert(carries(start.queue[j], id));
        } else {
            assert(declared.queue[j] is Op);
        }
    }
    assert(first_value(declared.queue + inbound_of(from_peer), id) == Some(value));
    assert(!declared.results.dom().contains(id));
}

/// The argument of an operation that sends it to the peer has been handed
/// over, under the tag of the operation's result, once the party has settled
/// and the argument is resident
pub proof fn lemma_sent(
    start: FabricState,
    declared: FabricState,
    settled: FabricState,
    from_peer: Seq<OutboundView>,
    k: int,
)
    requires
        start.graph_wf(),
        declared.extends(start),
        settled.settled(declared, from_peer),
        start.ops.len() <= k < declared.ops.len(),
        declared.ops[k].op_type == (OperationType::Network { function: NetworkFunction::SendArgument }),
        declared.ops[k].args.len() == 1,
        declared.ops[k].args[0] < declared.ops[k].result_id,
        settled.results.dom().contains(declared.ops[k].args[0] as int),
    ensures
        settled.sent_log.skip(start.sent_log.len() as int).contains(
            OutboundView {
                result_id: declared.ops[k].result_id,
                payload: settled.results[declared.ops[k].args[0] as int],
            },
        ),
        FabricState::sends_distinct(settled.sent_log.skip(start.sent_log.len() as int)),
{
    reveal(FabricState::sends_allocated);
    reveal(FabricState::sends_distinct);
    let op = settled.ops[k];
    let message = OutboundView { result_id: op.result_id, payload: settled.results[op.args[0] as int] };
    let since = settled.sent_log.skip(start.sent_log.len() as int);
    assert(op == declared.ops[k]);
    assert(FabricState::causal(op));
    assert(settled.args_complete(op));
    assert(settled.effected(op));
    assert(settled.arg_values(op)[0] == settled.results[op.args[0] as int]);
    assert(settled.sent_log.contains(message));
    let i = choose|i: int| 0 <= i < settled.sent_log.len() && settled.sent_log[i] == message;
    if i < start.sent_log.len() {
        assert(declared.sent_log[i] == start.sent_log[i]);
        assert(settled.sent_log[i] == declared.sent_log[i]);
    }
    assert(since[i - start.sent_log.len()] == message);
    assert forall|a: int, b: int| 0 <= a < b < since.len() implies (#[trigger] since[a]).result_id != (
    #[trigger] since[b]).result_id by {
        assert(settled.sent_log[a + start.sent_log.len()].result_id != settled.sent_log[b
            + start.sent_log.len()].result_id);
    }
}

/// The value that a gate gives on its arguments is resident under the
/// result of that gate, once the party has settled and the arguments are
/// resident
pub proof fn lemma_evaluated(settled: FabricState, k: int, index: int, value: Value)
    requires
        settled.quiescent(),
        0 <= k < settled.ops.len(),
        FabricState::causal(settled.ops[k]),
        settled.args_complete(settled.ops[k]),
        !(settled.ops[k].op_type is Network),
        0 <= index < settled.ops[k].output_arity,
        FabricState::gate_output(settled.ops[k], settled.arg_values(settled.ops[k]), index) == Some(
            value,
        ),
    ensures
        settled.results.dom().contains(output_id(settled.ops[k], index)),
        settled.results[output_id(settled.ops[k], index)] == value,
{
    assert(settled.effected(settled.ops[k]));
}

} // verus!
