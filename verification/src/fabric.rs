//! The fabric on which a circuit is built and evaluated.
//!
//! A circuit is built by allocating values and declaring operations on them;
//! each declaration hands back the identifiers of its results at once and
//! places the operation on the execution queue. The executor drains the
//! queue, evaluates every operation whose arguments are resident, and hands
//! the payloads of network operations to the outbound queue.

pub mod evaluation;
pub mod executor;
pub mod gate;
pub mod parties;
pub mod result;
pub mod sharing;

use crossbeam::queue::SegQueue;
use std::collections::HashMap;
use vstd::prelude::*;

use crate::algebra::scalar::Scalar;
use crate::algebra::stark_curve::StarkPoint;
use crate::beaver::SharedValueSource;
use crate::buffer::GrowableBuffer;
use crate::fabric::executor::Executor;
use crate::fabric::gate::BatchGateFunction;
use crate::fabric::gate::GateFunction;
use crate::fabric::gate::NetworkFunction;
use crate::fabric::result::OpResult;
use crate::fabric::result::ResultHandle;
use crate::fabric::result::ResultId;
use crate::fabric::result::ResultValue;
use crate::fabric::result::Value;
use crate::network::NetworkOutbound;
use crate::network::NetworkPayload;
use crate::network::OutboundView;
use crate::network::PartyId;

verus! {

/// The result id that is hardcoded to zero
pub const RESULT_ZERO: ResultId = 0;

/// The result id that is hardcoded to one
pub const RESULT_ONE: ResultId = 1;

/// The result id that is hardcoded to the curve identity point
pub const RESULT_IDENTITY: ResultId = 2;

/// The number of constant results allocated in the fabric, i.e. those defined above
pub const N_CONSTANT_RESULTS: usize = 3;

/// The default size hint to give the fabric for buffer pre-allocation
pub const DEFAULT_SIZE_HINT: usize = 10_000;

/// A type alias for the identifier used for a gate
pub type OperationId = usize;

/// The token by which a suspended consumer is woken once the result it waits
/// for is there
pub type WakerToken = u64;

/// Defines the different types of operations available in the computation graph
#[derive(Clone, Copy, Debug, PartialEq, Eq)]
#[allow(inconsistent_fields)]
pub enum OperationType {
    /// A gate operation; may be evaluated locally given its ready inputs
    Gate {
        /// The function to apply to the inputs
        function: GateFunction,
    },
    /// A gate operation that has output arity greater than one
    GateBatch {
        /// The function to apply to the inputs
        function: BatchGateFunction,
    },
    /// A network operation, requires that a value be sent over the network
    Network {
        /// The function to apply to the inputs to derive a network payload
        function: NetworkFunction,
    },
}

/// An operation within the network, describes the arguments and function to evaluate
/// once the arguments are ready
#[derive(Debug)]
pub struct Operation {
    /// Identifier of the operation
    pub id: OperationId,
    /// The result ID of the first result in the outputs
    pub result_id: ResultId,
    /// The number of outputs this operation produces
    pub output_arity: usize,
    /// The number of arguments that the operation still awaits, once the
    /// executor has taken it in; zero until then
    pub inflight_args: usize,
    /// The IDs of the inputs to this operation
    pub args: Vec<ResultId>,
    /// The type of the operation
    pub op_type: OperationType,
}

/// The mathematical content of an operation
pub struct OperationView {
    /// Identifier of the operation
    pub id: OperationId,
    /// The result ID of the first result in the outputs
    pub result_id: ResultId,
    /// The number of outputs this operation produces
    pub output_arity: usize,
    /// The number of arguments that the operation still awaits, once the
    /// executor has taken it in; zero until then
    pub inflight_args: usize,
    /// The IDs of the inputs to this operation
    pub args: Seq<ResultId>,
    /// The type of the operation
    pub op_type: OperationType,
}

impl View for Operation {
    type V = OperationView;

    open spec fn view(&self) -> OperationView {
        OperationView {
            id: self.id,
            result_id: self.result_id,
            output_arity: self.output_arity,
            inflight_args: self.inflight_args,
            args: self.args@,
            op_type: self.op_type,
        }
    }
}

impl OperationView {
    /// The ids of the operation's results: as many as its arity, counted from
    /// its first result
    pub open spec fn result_ids(self) -> Seq<ResultId> {
        Seq::new(self.output_arity as nat, |i: int| (self.result_id + i) as usize)
    }

    /// The operation as it stands when it is declared, with no argument in flight
    pub open spec fn declared(self) -> OperationView {
        OperationView { inflight_args: 0, ..self }
    }
}

impl Operation {
    /// Get the result IDs for an operation
    pub fn result_ids(&self) -> (r: Vec<ResultId>)
        requires
            self.result_id + self.output_arity <= usize::MAX,
        ensures
            r@ == self@.result_ids(),
    {
        let mut ids: Vec<ResultId> = Vec::with_capacity(self.output_arity);
        let mut i: usize = 0;
        while i < self.output_arity
            invariant
                self.result_id + self.output_arity <= usize::MAX,
                i <= self.output_arity,
                ids@ == Seq::new(i as nat, |j: int| (self.result_id + j) as usize),
            decreases self.output_arity - i,
        {
            ids.push(self.result_id + i);
            assert(ids@ =~= Seq::new((i + 1) as nat, |j: int| (self.result_id + j) as usize));
            i += 1;
        }
        ids
    }
}

/// A message to the executor
#[derive(Debug)]
pub enum ExecutorMessage {
    /// A result of an operation: a payload that arrived from the peer
    Result(OpResult),
    /// An operation that is ready for execution once its arguments are
    Op(Operation),
    /// Indicates that the executor should shut down
    Shutdown,
}

/// The mathematical content of a message to the executor
pub enum MessageView {
    /// A result of an operation
    Result(ResultId, Value),
    /// A newly declared operation
    Op(OperationView),
    /// Indicates that the executor should shut down
    Shutdown,
}

impl View for ExecutorMessage {
    type V = MessageView;

    open spec fn view(&self) -> MessageView {
        match self {
            ExecutorMessage::Result(result) => MessageView::Result(result.id, result.value@),
            ExecutorMessage::Op(op) => MessageView::Op(op@),
            ExecutorMessage::Shutdown => MessageView::Shutdown,
        }
    }
}

/// The mathematical content of a queue of messages
pub open spec fn messages_of(queue: Seq<ExecutorMessage>) -> Seq<MessageView> {
    Seq::new(queue.len(), |i: int| queue[i]@)
}

/// The mathematical content of a list of outbound messages
pub open spec fn outbound_of(queue: Seq<NetworkOutbound>) -> Seq<OutboundView> {
    Seq::new(queue.len(), |i: int| queue[i]@)
}

/// The queue type of `crossbeam`, which carries the messages to the executor
#[verifier::external_type_specification]
#[verifier::external_body]
#[verifier::reject_recursive_types(T)]
pub struct ExSegQueue<T>(SegQueue<T>);

/// The messages that an execution queue holds, the oldest first
pub uninterp spec fn queued_messages(queue: SegQueue<ExecutorMessage>) -> Seq<ExecutorMessage>;

/// An empty execution queue.
///
/// Trusted: `SegQueue::new` returns a queue that holds nothing.
#[verifier::external_body]
fn queue_new() -> (queue: SegQueue<ExecutorMessage>)
    ensures
        queued_messages(queue) == Seq::<ExecutorMessage>::empty(),
{
    SegQueue::new()
}

/// Put a message at the back of an execution queue.
///
/// Trusted: `SegQueue::push` appends the message and leaves the rest as it was.
#[verifier::external_body]
fn queue_push(queue: &mut SegQueue<ExecutorMessage>, message: ExecutorMessage)
    ensures
        queued_messages(*final(queue)) == queued_messages(*old(queue)).push(message),
{
    queue.push(message)
}

/// Take the oldest message from an execution queue.
///
/// Trusted: `SegQueue::pop` removes and returns the message that was pushed
/// first, and returns nothing exactly when the queue is empty.
#[verifier::external_body]
fn queue_pop(queue: &mut SegQueue<ExecutorMessage>) -> (message: Option<ExecutorMessage>)
    ensures
        match message {
            Some(m) => queued_messages(*old(queue)).len() > 0 && m == queued_messages(*old(queue))[0]
                && queued_messages(*final(queue)) == queued_messages(*old(queue)).drop_first(),
            None => queued_messages(*old(queue)).len() == 0 && queued_messages(*final(queue))
                == queued_messages(*old(queue)),
        },
{
    queue.pop()
}

/// What produces a result
#[derive(Clone, Copy, Debug, PartialEq, Eq, Structural)]
pub enum SlotKind {
    /// The result was resident from the moment it was allocated
    Value,
    /// The result is an output of a gate
    Gate {
        /// The operation that produces the result
        op: OperationId,
        /// The place of the result among the operation's outputs
        index: usize,
    },
    /// The result arrives from the peer
    Inbound,
}

/// What produces the result at a place among the outputs of an operation: the
/// peer for a network operation, the operation itself for a gate
pub open spec fn output_kind(op_id: OperationId, op_type: OperationType, index: int) -> SlotKind {
    match op_type {
        OperationType::Network { .. } => SlotKind::Inbound,
        _ => SlotKind::Gate { op: op_id, index: index as usize },
    }
}

/// The id of the result at a place among the outputs of an operation
pub open spec fn output_id(op: OperationView, index: int) -> int {
    op.result_id + index
}

/// The state of a fabric: the graph that has been declared on it, and how far
/// the graph has been evaluated
pub struct FabricState {
    /// The ID of the local party in the MPC execution
    pub party_id: PartyId,
    /// The next identifier to assign to a result
    pub next_result_id: int,
    /// The next identifier to assign to an operation
    pub next_op_id: int,
    /// The completed results of operations
    pub results: Map<int, Value>,
    /// What produces each result that has been allocated
    pub kinds: Seq<SlotKind>,
    /// Every operation that has been declared, by its identifier
    pub ops: Seq<OperationView>,
    /// The messages that the executor has not handled yet, the oldest first
    pub queue: Seq<MessageView>,
    /// Whether the executor has been told to shut down, and handles no more
    /// messages
    pub stopped: bool,
    /// The operations whose function failed on their arguments, in the order
    /// in which the executor found them
    pub failed: Seq<OperationId>,
    /// The values that arrived from the peer for results that were not
    /// allocated yet, and that are held until they are
    pub early: Map<int, Value>,
    /// The messages to the peer that wait to be taken off the outbound queue,
    /// the oldest first
    pub outbound: Seq<OutboundView>,
    /// Every message to the peer that was ever handed to the outbound queue,
    /// in the order in which they were handed over
    pub sent_log: Seq<OutboundView>,
    /// The tokens of the consumers that wait for each result
    pub waiters: Map<int, Seq<WakerToken>>,
    /// The tokens of the consumers to wake, in the order in which their results
    /// were fulfilled
    pub woken: Seq<WakerToken>,
    /// The local shares of the Beaver triples that have been drawn from the
    /// source of shared values and not been used yet, the oldest first
    pub triples: Seq<(Scalar, Scalar, Scalar)>,
}

impl FabricState {
    /// The state of a fabric on which nothing has been declared: the three
    /// constants are resident, and nothing else
    pub open spec fn initial(party_id: PartyId) -> FabricState {
        FabricState {
            party_id,
            next_result_id: N_CONSTANT_RESULTS as int,
            next_op_id: 0,
            results: Map::<int, Value>::empty().insert(
                RESULT_ZERO as int,
                Value::Scalar(Scalar::of_nat(0)),
            ).insert(RESULT_ONE as int, Value::Scalar(Scalar::of_nat(1))).insert(
                RESULT_IDENTITY as int,
                Value::Point(StarkPoint::identity_spec()),
            ),
            kinds: seq![SlotKind::Value, SlotKind::Value, SlotKind::Value],
            ops: Seq::empty(),
            queue: Seq::empty(),
            stopped: false,
            failed: Seq::empty(),
            early: Map::empty(),
            outbound: Seq::empty(),
            sent_log: Seq::empty(),
            waiters: Map::empty(),
            woken: Seq::empty(),
            triples: Seq::empty(),
        }
    }

    /// The state of a fabric on which nothing has been declared, once the local
    /// share of the MAC key has been allocated
    pub open spec fn keyed(party_id: PartyId, key: Scalar) -> FabricState {
        FabricState::initial(party_id).allocate(Value::Scalar(key))
    }

    /// The state after each of a list of values has been allocated, in order
    pub open spec fn allocate_all(self, values: Seq<Value>) -> FabricState
        decreases values.len(),
    {
        if values.len() == 0 {
            self
        } else {
            self.allocate_all(values.drop_last()).allocate(values.last())
        }
    }

    /// Whether this state has come from an earlier one by declaring `ids`
    /// results and `ops` operations and using `triples` Beaver triples
    pub open spec fn advanced(self, earlier: FabricState, ids: int, ops: int, triples: int) -> bool {
        &&& self.next_result_id == earlier.next_result_id + ids
        &&& self.next_op_id == earlier.next_op_id + ops
        &&& self.party_id == earlier.party_id
        &&& 0 <= triples <= earlier.triples.len()
        &&& self.triples =~= earlier.triples.skip(triples)
    }

    /// Whether there is room for `count` more results and operations
    pub open spec fn has_room(self, count: int) -> bool {
        self.next_result_id + count <= usize::MAX && self.next_op_id + count <= usize::MAX
    }

    /// The state after a Beaver triple has been drawn from the source
    pub open spec fn with_triple(self, triple: (Scalar, Scalar, Scalar)) -> FabricState {
        FabricState { triples: self.triples.push(triple), ..self }
    }

    /// The state after Beaver triples have been drawn from the source
    pub open spec fn with_drawn(self, drawn: Seq<(Scalar, Scalar, Scalar)>) -> FabricState {
        FabricState { triples: self.triples + drawn, ..self }
    }

    /// The number of Beaver triples that are to be drawn from the source for
    /// `needed` of them to be there
    pub open spec fn lacking(self, needed: int) -> int {
        if needed > self.triples.len() {
            needed - self.triples.len()
        } else {
            0
        }
    }

    /// Whether a list of Beaver triples is as long as the list of those that
    /// are to be drawn from the source for `needed` of them to be there
    pub open spec fn draws(self, drawn: Seq<(Scalar, Scalar, Scalar)>, needed: int) -> bool {
        drawn.len() == self.lacking(needed)
    }

    /// The state after the oldest Beaver triple has been used
    pub open spec fn without_triple(self) -> FabricState {
        FabricState { triples: self.triples.drop_first(), ..self }
    }

    /// Whether a result is resident
    pub open spec fn is_complete(self, id: int) -> bool {
        self.results.dom().contains(id)
    }

    /// The state after a value has been allocated: the value is resident under
    /// the next result id, and the consumers that waited for a result of that
    /// id are ones to wake
    pub open spec fn allocate(self, value: Value) -> FabricState {
        FabricState {
            next_result_id: self.next_result_id + 1,
            kinds: self.kinds.push(SlotKind::Value),
            ..self.fulfilled(self.next_result_id, value)
        }
    }

    /// The state after a shared value has been allocated: the local share is
    /// resident under the next result id, and the peer's share is on its way
    /// under the same id
    pub open spec fn allocate_shared(self, my_share: Value, their_share: Value) -> FabricState {
        FabricState {
            outbound: self.outbound.push(
                OutboundView { result_id: self.next_result_id as usize, payload: their_share },
            ),
            sent_log: self.sent_log.push(
                OutboundView { result_id: self.next_result_id as usize, payload: their_share },
            ),
            ..self.allocate(my_share)
        }
    }

    /// The state after a value has arrived from the peer for a result that is
    /// not allocated yet: the value is held, unless one is held for the result
    /// already
    pub open spec fn held(self, id: int, value: Value) -> FabricState {
        if self.early.dom().contains(id) {
            self
        } else {
            FabricState { early: self.early.insert(id, value), ..self }
        }
    }

    /// The state after the value that is held for a result, if there is one,
    /// has been put on the execution queue
    pub open spec fn claimed(self, id: int) -> FabricState {
        if self.early.dom().contains(id) {
            FabricState {
                early: self.early.remove(id),
                queue: self.queue.push(MessageView::Result(id as usize, self.early[id])),
                ..self
            }
        } else {
            self
        }
    }

    /// The state after a slot has been allocated for a value from the peer,
    /// before a value that is held for it is looked for
    pub open spec fn with_slot(self) -> FabricState {
        FabricState {
            next_result_id: self.next_result_id + 1,
            kinds: self.kinds.push(SlotKind::Inbound),
            ..self
        }
    }

    /// The state after a slot has been allocated for a value that the peer
    /// sends: a value that arrived before the slot was allocated is on the
    /// execution queue
    pub open spec fn receive(self) -> FabricState {
        self.with_slot().claimed(self.next_result_id)
    }

    /// The operation that a declaration creates in this state
    #[verifier::opaque]
    pub open spec fn next_op(self, args: Seq<ResultId>, arity: int, op_type: OperationType)
        -> OperationView {
        OperationView {
            id: self.next_op_id as usize,
            result_id: self.next_result_id as usize,
            output_arity: arity as usize,
            inflight_args: 0,
            args,
            op_type,
        }
    }

    /// What produces the results of an operation that a declaration creates in
    /// this state
    #[verifier::opaque]
    pub open spec fn next_kinds(self, arity: int, op_type: OperationType) -> Seq<SlotKind> {
        Seq::new(arity as nat, |i: int| output_kind(self.next_op_id as usize, op_type, i))
    }

    /// The state after an operation has been declared, before a value that is
    /// held for its result is looked for
    pub open spec fn with_declared(self, args: Seq<ResultId>, arity: int, op_type: OperationType)
        -> FabricState {
        FabricState {
            next_result_id: self.next_result_id + arity,
            next_op_id: self.next_op_id + 1,
            kinds: self.kinds + self.next_kinds(arity, op_type),
            ops: self.ops.push(self.next_op(args, arity, op_type)),
            queue: self.queue.push(MessageView::Op(self.next_op(args, arity, op_type))),
            ..self
        }
    }

    /// The state after an operation has been declared: its results have their
    /// ids, and the operation is on its way to the executor. The result of a
    /// network operation comes from the peer: a value that arrived for it
    /// before the operation was declared follows the operation on the queue.
    pub open spec fn with_op(self, args: Seq<ResultId>, arity: int, op_type: OperationType)
        -> FabricState {
        let declared = self.with_declared(args, arity, op_type);
        if op_type is Network {
            declared.claimed(self.next_result_id)
        } else {
            declared
        }
    }

    /// The state after a gate with one result has been declared
    pub open spec fn with_gate(self, args: Seq<ResultId>, function: GateFunction) -> FabricState {
        self.with_op(args, 1, OperationType::Gate { function })
    }

    /// The state after a gate with several results has been declared
    pub open spec fn with_batch_gate(
        self,
        args: Seq<ResultId>,
        arity: int,
        function: BatchGateFunction,
    ) -> FabricState {
        self.with_op(args, arity, OperationType::GateBatch { function })
    }

    /// The state after a network operation has been declared
    pub open spec fn with_network_op(self, args: Seq<ResultId>, function: NetworkFunction)
        -> FabricState {
        self.with_op(args, 1, OperationType::Network { function })
    }

    /// The state after a result has been fulfilled: the value is resident, and
    /// the consumers that waited for it are to be woken
    pub open spec fn fulfilled(self, id: int, value: Value) -> FabricState {
        FabricState {
            results: self.results.insert(id, value),
            waiters: self.waiters.remove(id),
            woken: if self.waiters.dom().contains(id) {
                self.woken + self.waiters[id]
            } else {
                self.woken
            },
            ..self
        }
    }

    /// The state after a payload has been handed to the outbound queue
    pub open spec fn sent(self, id: ResultId, payload: Value) -> FabricState {
        FabricState {
            outbound: self.outbound.push(OutboundView { result_id: id, payload }),
            sent_log: self.sent_log.push(OutboundView { result_id: id, payload }),
            ..self
        }
    }

    /// The state after the executor has found that the function of an
    /// operation fails on its arguments
    pub open spec fn with_failure(self, op_id: OperationId) -> FabricState {
        FabricState { failed: self.failed.push(op_id), ..self }
    }

    /// The state after the executor has been told to shut down
    pub open spec fn halted(self) -> FabricState {
        FabricState { stopped: true, ..self }
    }

    /// The state after the oldest message has been taken off the execution queue
    pub open spec fn popped(self) -> FabricState {
        FabricState { queue: self.queue.drop_first(), ..self }
    }

    /// The state after a consumer has registered to be woken for a result
    pub open spec fn with_waiter(self, id: int, token: WakerToken) -> FabricState {
        FabricState {
            waiters: self.waiters.insert(
                id,
                if self.waiters.dom().contains(id) {
                    self.waiters[id].push(token)
                } else {
                    seq![token]
                },
            ),
            ..self
        }
    }

    /// The state after a value has been exchanged with the peer: the first
    /// party sends and then receives, the other receives and then sends
    pub open spec fn exchange(self, args: Seq<ResultId>, function: NetworkFunction) -> FabricState {
        if self.party_id == crate::PARTY0 {
            self.with_network_op(args, function).receive()
        } else {
            self.receive().with_network_op(args, function)
        }
    }

    /// The id under which the value that the peer sends in an exchange arrives
    pub open spec fn exchanged_id(self) -> int {
        if self.party_id == crate::PARTY0 {
            self.next_result_id + 1
        } else {
            self.next_result_id
        }
    }

    /// The state after a public value has been shared with the peer: the
    /// sender allocates the value and sends it, the other party allocates a
    /// slot for it
    pub open spec fn share_plaintext(self, value: Value, sender: PartyId) -> FabricState {
        if self.party_id == sender {
            self.allocate_shared(value, value)
        } else {
            self.receive()
        }
    }

    /// The state after a message from the peer has been put on the execution queue
    pub open spec fn with_inbound(self, id: ResultId, value: Value) -> FabricState {
        FabricState { queue: self.queue.push(MessageView::Result(id, value)), ..self }
    }

    /// Whether every argument of an operation is resident
    pub open spec fn args_complete(self, op: OperationView) -> bool {
        forall|j: int|
            0 <= j < op.args.len() ==> self.results.dom().contains(#[trigger] op.args[j] as int)
    }

    /// The values of the arguments of an operation
    pub open spec fn arg_values(self, op: OperationView) -> Seq<Value> {
        Seq::new(op.args.len(), |j: int| self.results[op.args[j] as int])
    }

    /// The value that a gate yields at one of its outputs, given the values of
    /// its arguments; a gate that fails on its arguments yields nothing at all
    pub open spec fn gate_output(op: OperationView, args: Seq<Value>, index: int) -> Option<Value> {
        match op.op_type {
            OperationType::Gate { function } => if index == 0 && op.output_arity == 1 {
                function.eval_spec(args)
            } else {
                None
            },
            OperationType::GateBatch { function } => match function.eval_spec(
                args,
                op.output_arity as int,
            ) {
                Some(outputs) => if 0 <= index < op.output_arity {
                    Some(outputs[index])
                } else {
                    None
                },
                None => None,
            },
            OperationType::Network { .. } => None,
        }
    }

    /// The graph is well formed: every result that has been allocated has a
    /// producer, the results of each operation are its own, the three constants
    /// are in place, and nothing is resident that has not been allocated
    pub open spec fn graph_wf(self) -> bool {
        &&& N_CONSTANT_RESULTS <= self.next_result_id <= usize::MAX
        &&& 0 <= self.next_op_id <= usize::MAX
        &&& self.kinds.len() == self.next_result_id
        &&& self.ops.len() == self.next_op_id
        &&& forall|id: int| #[trigger]
            self.results.dom().contains(id) ==> 0 <= id < self.next_result_id
        &&& forall|id: int|
            0 <= id < self.next_result_id && #[trigger] self.kinds[id] == SlotKind::Value
                ==> self.results.dom().contains(id)
        &&& self.results.dom().contains(RESULT_ZERO as int) && self.results[RESULT_ZERO as int]
            == Value::Scalar(Scalar::of_nat(0))
        &&& self.results.dom().contains(RESULT_ONE as int) && self.results[RESULT_ONE as int]
            == Value::Scalar(Scalar::of_nat(1))
        &&& self.results.dom().contains(RESULT_IDENTITY as int)
            && self.results[RESULT_IDENTITY as int] == Value::Point(StarkPoint::identity_spec())
        &&& forall|k: int|
            0 <= k < self.ops.len() ==> FabricState::op_wf(
                #[trigger] self.ops[k],
                k,
                self.next_result_id,
            )
        &&& forall|id: int|
            0 <= id < self.kinds.len() ==> FabricState::kind_wf(
                #[trigger] self.kinds[id],
                id,
                self.ops,
            )
        &&& forall|k: int, j: int|
            0 <= k < self.ops.len() && 0 <= j < self.ops[k].output_arity ==> self.kinds[
            #[trigger] output_id(self.ops[k], j)] == output_kind(k as usize, self.ops[k].op_type, j)
        &&& FabricState::ops_ordered(self.ops)
        &&& FabricState::sends_allocated(self.sent_log, self.next_result_id)
        &&& FabricState::sends_distinct(self.sent_log)
    }

    /// No two messages to the peer are tagged with the same result
    #[verifier::opaque]
    pub open spec fn sends_distinct(sent_log: Seq<OutboundView>) -> bool {
        forall|i: int, j: int|
            0 <= i < j < sent_log.len() ==> (#[trigger] sent_log[i]).result_id != (
            #[trigger] sent_log[j]).result_id
    }

    /// Whether no message to the peer is tagged with a result
    pub open spec fn unsent(self, id: int) -> bool {
        forall|i: int| 0 <= i < self.sent_log.len() ==> (#[trigger] self.sent_log[i]).result_id != id
    }

    /// The results of an operation come before those of every operation that
    /// was declared after it
    #[verifier::opaque]
    pub open spec fn ops_ordered(ops: Seq<OperationView>) -> bool {
        forall|k: int, later: int|
            0 <= k < later < ops.len() ==> (#[trigger] ops[k]).result_id + ops[k].output_arity
                <= (#[trigger] ops[later]).result_id
    }

    /// Every message to the peer is tagged with a result that has been
    /// allocated
    #[verifier::opaque]
    pub open spec fn sends_allocated(sent_log: Seq<OutboundView>, next_result_id: int) -> bool {
        forall|i: int| 0 <= i < sent_log.len() ==> (#[trigger] sent_log[i]).result_id < next_result_id
    }

    /// An operation carries its own identifier, and its results lie among the
    /// allocated ones
    pub open spec fn op_wf(op: OperationView, k: int, next_result_id: int) -> bool {
        &&& op.id == k
        &&& op.inflight_args == 0
        &&& op.output_arity >= 1
        &&& op.result_id + op.output_arity <= next_result_id
        &&& (op.op_type is Gate || op.op_type is Network) ==> op.output_arity == 1
    }

    /// The producer of a result is the operation that counts the result among
    /// its own
    pub open spec fn kind_wf(kind: SlotKind, id: int, ops: Seq<OperationView>) -> bool {
        match kind {
            SlotKind::Gate { op, index } => {
                &&& op < ops.len()
                &&& !(ops[op as int].op_type is Network)
                &&& index < ops[op as int].output_arity
                &&& ops[op as int].result_id + index == id
            },
            _ => true,
        }
    }

    /// Every resident result of a gate is the value of its gate on its
    /// arguments, all of which are resident
    pub open spec fn results_sound(self) -> bool {
        forall|id: int|
            0 <= id < self.kinds.len() && #[trigger] self.results.dom().contains(id) ==> (
            match self.kinds[id] {
                SlotKind::Gate { op, index } => {
                    &&& self.args_complete(self.ops[op as int])
                    &&& FabricState::gate_output(
                        self.ops[op as int],
                        self.arg_values(self.ops[op as int]),
                        index as int,
                    ) == Some(self.results[id])
                },
                _ => true,
            })
    }

    /// Whether an operation refers only to results that were allocated before
    /// its own
    pub open spec fn causal(op: OperationView) -> bool {
        forall|j: int| 0 <= j < op.args.len() ==> (#[trigger] op.args[j]) < op.result_id
    }

    /// Whether the function of an operation fails on the values of its
    /// arguments: they are too few or too many, or of the wrong kinds
    pub open spec fn fails(op: OperationView, args: Seq<Value>) -> bool {
        match op.op_type {
            OperationType::Network { function } => function.eval_spec(args) is None,
            _ => FabricState::gate_output(op, args, 0) is None,
        }
    }

    /// Whether an operation has had its effect: a gate's results are resident
    /// with the values that it yields on its arguments, and a network
    /// operation's payload has been handed over. An operation whose function
    /// fails on its arguments has no result; it is on the list of the
    /// operations that failed.
    pub open spec fn effected(self, op: OperationView) -> bool {
        if FabricState::fails(op, self.arg_values(op)) {
            self.failed.contains(op.id)
        } else {
            self.done(op)
        }
    }

    /// Whether the results of a gate are resident with the values that it
    /// yields on its arguments, or the payload of a network operation has been
    /// handed over
    pub open spec fn done(self, op: OperationView) -> bool {
        match op.op_type {
            OperationType::Network { function } => match function.eval_spec(self.arg_values(op)) {
                Some(payload) => self.sent_log.contains(
                    OutboundView { result_id: op.result_id, payload },
                ),
                None => true,
            },
            _ => forall|j: int|
                0 <= j < op.output_arity ==> (match FabricState::gate_output(
                    op,
                    self.arg_values(op),
                    j,
                ) {
                    Some(value) => self.results.dom().contains(#[trigger] output_id(op, j))
                        && self.results[output_id(op, j)] == value,
                    None => true,
                }),
        }
    }

    /// Nothing is left to do: every operation whose arguments are resident has
    /// had its effect
    pub open spec fn quiescent(self) -> bool {
        forall|k: int|
            0 <= k < self.ops.len() && FabricState::causal(#[trigger] self.ops[k])
                && self.args_complete(self.ops[k]) ==> self.effected(self.ops[k])
    }

    /// The operations among the messages that the executor has not handled yet
    pub open spec fn queued_ops(self) -> Seq<OperationView> {
        op_messages(self.queue)
    }

    /// The results that have been allocated and are not resident
    pub open spec fn missing(self) -> Set<int> {
        vstd::set_lib::set_int_range(0, self.next_result_id).difference(self.results.dom())
    }

    /// Whether this state has come from an earlier one by evaluation alone:
    /// the graph is the same, every result that was resident still is, every
    /// value that was held still is, the messages that were handed to the
    /// peer are still the first ones handed over, every message that has been
    /// handed over since is that of a network operation, and the consumers
    /// that waited for what has become resident are ones to wake
    pub open spec fn evolves_from(self, earlier: FabricState) -> bool {
        &&& self.party_id == earlier.party_id
        &&& self.next_result_id == earlier.next_result_id
        &&& self.next_op_id == earlier.next_op_id
        &&& self.kinds == earlier.kinds
        &&& self.ops == earlier.ops
        &&& self.triples == earlier.triples
        &&& self.keeps_results_of(earlier)
        &&& self.keeps_early_of(earlier)
        &&& earlier.sent_log.is_prefix_of(self.sent_log)
        &&& earlier.outbound.is_prefix_of(self.outbound)
        &&& earlier.woken.is_prefix_of(self.woken)
        &&& earlier.failed.is_prefix_of(self.failed)
        &&& self.woke(earlier)
        &&& self.sent_since(earlier)
        &&& self.failed_since(earlier)
    }

    /// Whether every result that has become resident since an earlier state
    /// is the result of a gate, or a value that arrived from the peer in one of
    /// the given messages for a result that the fabric awaits from the peer
    pub open spec fn fulfilled_from(self, earlier: FabricState, messages: Seq<MessageView>) -> bool {
        forall|id: int| #[trigger]
            self.results.dom().contains(id) && !earlier.results.dom().contains(id) ==> 0 <= id
                < self.kinds.len() && (self.kinds[id] is Gate || (self.kinds[id]
                == SlotKind::Inbound && messages.contains(
                MessageView::Result(id as usize, self.results[id]),
            )))
    }

    /// Whether the values that arrived from the peer in the given messages
    /// have been taken in since an earlier state. The first value for a result
    /// that the fabric awaits from the peer, and that was not resident, is the
    /// result. The first value for a result that was not allocated is held,
    /// unless one was held for it already, and nothing else has come to be
    /// held.
    pub open spec fn delivered(self, earlier: FabricState, messages: Seq<MessageView>) -> bool {
        &&& forall|id: int|
            0 <= id < earlier.kinds.len() && earlier.kinds[id] == SlotKind::Inbound
                && !earlier.results.dom().contains(id) ==> (
            #[trigger] first_value(messages, id) matches Some(value)
                ==> self.results.dom().contains(id) && self.results[id] == value)
        &&& forall|id: int|
            earlier.kinds.len() <= id < usize::MAX && !earlier.early.dom().contains(id) ==> (
            #[trigger] first_value(messages, id) matches Some(value)
                ==> self.early.dom().contains(id) && self.early[id] == value)
        &&& forall|id: int| #[trigger]
            self.early.dom().contains(id) && !earlier.early.dom().contains(id)
                ==> earlier.kinds.len() <= id < usize::MAX && first_value(messages, id) is Some
    }

    /// Whether a message to the peer is that of a network operation: the
    /// payload that the operation gives on its arguments, all of them
    /// resident, under the tag of the operation's result
    pub open spec fn message_of(self, k: int, message: OutboundView) -> bool {
        &&& 0 <= k < self.ops.len()
        &&& self.args_complete(self.ops[k])
        &&& message.result_id == self.ops[k].result_id
        &&& match self.ops[k].op_type {
            OperationType::Network { function } => function.eval_spec(self.arg_values(self.ops[k]))
                == Some(message.payload),
            _ => false,
        }
    }

    /// Whether every operation that has been put on the list of failed
    /// operations since an earlier state is one whose arguments are resident
    /// and whose function fails on them
    #[verifier::opaque]
    pub open spec fn failed_since(self, earlier: FabricState) -> bool {
        forall|i: int|
            earlier.failed.len() <= i < self.failed.len() ==> self.failure(#[trigger] self.failed[i])
    }

    /// Whether an operation is one whose arguments are resident and whose
    /// function fails on them
    pub open spec fn failure(self, op_id: OperationId) -> bool {
        &&& op_id < self.ops.len()
        &&& self.args_complete(self.ops[op_id as int])
        &&& FabricState::fails(self.ops[op_id as int], self.arg_values(self.ops[op_id as int]))
    }

    /// Whether a message to the peer is that of some network operation
    pub open spec fn from_operation(self, message: OutboundView) -> bool {
        exists|k: int| #[trigger] self.message_of(k, message)
    }

    /// Whether every message that has been handed to the outbound queue since
    /// an earlier state is that of a network operation
    #[verifier::opaque]
    pub open spec fn sent_since(self, earlier: FabricState) -> bool {
        forall|i: int|
            earlier.sent_log.len() <= i < self.sent_log.len() ==> self.from_operation(
                #[trigger] self.sent_log[i],
            )
    }

    /// Whether a token is that of a consumer that waited, in this state, for
    /// a result that is resident in a later one and was not in this one
    pub open spec fn waited_for_one_of(self, later: FabricState, token: WakerToken) -> bool {
        exists|id: int, j: int|
            self.waiters.dom().contains(id) && !self.results.dom().contains(id)
                && later.results.dom().contains(id) && 0 <= j < self.waiters[id].len()
                && #[trigger] self.waiters[id][j] == token
    }

    /// Whether the consumers that waited for the results that have become
    /// resident since an earlier state, and no others, have become ones to
    /// wake: they wait no more, the tokens of each are among those to wake, and
    /// every token that was added to those is one of theirs. The consumers that
    /// wait for other results wait as before.
    #[verifier::opaque]
    pub open spec fn woke(self, earlier: FabricState) -> bool {
        &&& forall|id: int| #[trigger]
            earlier.waiters.dom().contains(id) ==> (if self.results.dom().contains(id)
                && !earlier.results.dom().contains(id) {
                !self.waiters.dom().contains(id) && forall|j: int|
                    0 <= j < earlier.waiters[id].len() ==> self.woken.contains(
                        #[trigger] earlier.waiters[id][j],
                    )
            } else {
                self.waiters.dom().contains(id) && self.waiters[id] == earlier.waiters[id]
            })
        &&& forall|id: int| #[trigger]
            self.waiters.dom().contains(id) ==> earlier.waiters.dom().contains(id)
        &&& forall|i: int|
            earlier.woken.len() <= i < self.woken.len() ==> earlier.waited_for_one_of(
                self,
                #[trigger] self.woken[i],
            )
    }

    /// Whether this state has the graph of an earlier one and keeps what the
    /// earlier one held: the results, the values held for results that are not
    /// allocated, and the messages that were handed to the peer. The queues
    /// that are drained from outside do not count.
    pub open spec fn continues(self, earlier: FabricState) -> bool {
        &&& self.party_id == earlier.party_id
        &&& self.next_result_id == earlier.next_result_id
        &&& self.next_op_id == earlier.next_op_id
        &&& self.kinds == earlier.kinds
        &&& self.ops == earlier.ops
        &&& self.keeps_results_of(earlier)
        &&& self.keeps_early_of(earlier)
        &&& earlier.sent_log.is_prefix_of(self.sent_log)
        &&& earlier.failed.is_prefix_of(self.failed)
    }

    /// Whether this state is what a party has come to from an earlier one
    /// and the given messages, in one run of the executor or in several, once
    /// nothing is left to do: the values from the peer have been taken in,
    /// every resident result of a gate is the value of its gate, and every
    /// operation whose arguments are resident has had its effect
    pub open spec fn reached(self, earlier: FabricState, messages: Seq<MessageView>) -> bool {
        &&& self.continues(earlier)
        &&& self.results_sound()
        &&& self.quiescent()
        &&& self.fulfilled_from(earlier, messages)
        &&& self.delivered(earlier, messages)
    }

    /// Whether this state is what evaluation makes of an earlier one and of
    /// the given messages, once nothing is left to do: the values from the
    /// peer have been taken in, every resident result of a gate is the value
    /// of its gate, and every operation whose arguments are resident has had
    /// its effect
    pub open spec fn outcome_of(self, earlier: FabricState, messages: Seq<MessageView>) -> bool {
        &&& self.evolves_from(earlier)
        &&& self.results_sound()
        &&& self.quiescent()
        &&& self.fulfilled_from(earlier, messages)
        &&& self.delivered(earlier, messages)
    }

    /// Whether this state holds every value that an earlier state held for a
    /// result that is not allocated
    pub open spec fn keeps_early_of(self, earlier: FabricState) -> bool {
        forall|id: int| #[trigger]
            earlier.early.dom().contains(id) ==> self.early.dom().contains(id) && self.early[id]
                == earlier.early[id]
    }

    /// Whether this state keeps every result that an earlier state held
    pub open spec fn keeps_results_of(self, earlier: FabricState) -> bool {
        forall|id: int| #[trigger]
            earlier.results.dom().contains(id) ==> self.results.dom().contains(id)
                && self.results[id] == earlier.results[id]
    }
}

/// Whether a message carries a value for a result
pub open spec fn carries(message: MessageView, id: int) -> bool {
    match message {
        MessageView::Result(x, _) => x == id,
        _ => false,
    }
}

/// Each declaration hands out as many identifiers as its kind asks for,
/// whatever the values, the party and the state of evaluation
pub proof fn lemma_declarations_advance(
    s: FabricState,
    value: Value,
    args: Seq<ResultId>,
    arity: int,
    op_type: OperationType,
)
    ensures
        s.allocate(value).advanced(s, 1, 0, 0),
        s.receive().advanced(s, 1, 0, 0),
        s.with_op(args, arity, op_type).advanced(s, arity, 1, 0),
{
    assert(s.triples.skip(0) =~= s.triples);
}

/// Two fabrics that have handed out the same identifiers still have after
/// the same declarations: both parties know each result by the same
/// identifier
pub proof fn lemma_advanced_alike(
    mine: FabricState,
    theirs: FabricState,
    mine_after: FabricState,
    theirs_after: FabricState,
    ids: int,
    ops: int,
    my_triples: int,
    their_triples: int,
)
    requires
        mine.next_result_id == theirs.next_result_id,
        mine.next_op_id == theirs.next_op_id,
        mine_after.advanced(mine, ids, ops, my_triples),
        theirs_after.advanced(theirs, ids, ops, their_triples),
    ensures
        mine_after.next_result_id == theirs_after.next_result_id,
        mine_after.next_op_id == theirs_after.next_op_id,
{
}

/// The value that the first of the messages for a result carries, if there is
/// a message for the result
pub open spec fn first_value(messages: Seq<MessageView>, id: int) -> Option<Value>
    decreases messages.len(),
{
    if messages.len() == 0 {
        None
    } else {
        match first_value(messages.drop_last(), id) {
            Some(value) => Some(value),
            None => match messages.last() {
                MessageView::Result(x, value) => if x == id {
                    Some(value)
                } else {
                    None
                },
                _ => None,
            },
        }
    }
}

/// The number of messages that an executor handles of those on its queue: all
/// of them up to the first that tells it to shut down
pub open spec fn handled_len(queue: Seq<MessageView>) -> nat
    decreases queue.len(),
{
    if queue.len() == 0 {
        0
    } else if queue[0] is Shutdown {
        1
    } else {
        1 + handled_len(queue.drop_first())
    }
}

/// The operations among a list of messages, in their order
pub open spec fn op_messages(queue: Seq<MessageView>) -> Seq<OperationView>
    decreases queue.len(),
{
    if queue.len() == 0 {
        Seq::empty()
    } else {
        let rest = op_messages(queue.drop_last());
        match queue.last() {
            MessageView::Op(op) => rest.push(op),
            _ => rest,
        }
    }
}

/// Taking the oldest message off a list takes the oldest operation off the
/// operations among them, if the message is an operation, and nothing otherwise
pub proof fn lemma_op_messages_drop_first(queue: Seq<MessageView>)
    requires
        queue.len() > 0,
    ensures
        match queue[0] {
            MessageView::Op(op) => op_messages(queue).len() > 0 && op_messages(queue)[0] == op
                && op_messages(queue.drop_first()) == op_messages(queue).drop_first(),
            _ => op_messages(queue.drop_first()) == op_messages(queue),
        },
    decreases queue.len(),
{
    if queue.len() == 1 {
        assert(queue.drop_last() =~= Seq::<MessageView>::empty());
        assert(queue.drop_first() =~= Seq::<MessageView>::empty());
        assert(op_messages(queue.drop_last()) =~= Seq::<OperationView>::empty());
        match queue[0] {
            MessageView::Op(op) => {
                assert(op_messages(queue) =~= seq![op]);
                assert(op_messages(queue).drop_first() =~= Seq::<OperationView>::empty());
            },
            _ => {},
        }
    } else {
        let shorter = queue.drop_last();
        lemma_op_messages_drop_first(shorter);
        assert(queue.drop_first().drop_last() =~= shorter.drop_first());
        assert(queue.drop_first().last() == queue.last());
        assert(shorter[0] == queue[0]);
        match queue[0] {
            MessageView::Op(op) => {
                match queue.last() {
                    MessageView::Op(last) => {
                        assert(op_messages(queue.drop_first()) =~= op_messages(
                            queue,
                        ).drop_first());
                    },
                    _ => {},
                }
            },
            _ => {},
        }
    }
}

/// The values that a result buffer holds, by their ids
pub open spec fn results_of(buffer: GrowableBuffer<OpResult>) -> Map<int, Value> {
    Map::new(|id: int| buffer.entry(id) is Some, |id: int| buffer.entry(id).unwrap().value@)
}

/// The values that a buffer of early arrivals holds, by the ids of their
/// results
pub open spec fn early_of(buffer: GrowableBuffer<ResultValue>) -> Map<int, Value> {
    Map::new(|id: int| buffer.entry(id) is Some, |id: int| buffer.entry(id).unwrap()@)
}

/// The tokens that a buffer of wakers holds, by the ids of the results that
/// their consumers wait for
pub open spec fn waiters_of(wakers: HashMap<ResultId, Vec<WakerToken>>) -> Map<
    int,
    Seq<WakerToken>,
> {
    Map::new(
        |id: int| 0 <= id <= usize::MAX && wakers@.dom().contains(id as usize),
        |id: int| wakers@[id as usize]@,
    )
}

/// Mark the consumers that wait for a result as ones to wake
fn wake_waiters(
    wakers: &mut HashMap<ResultId, Vec<WakerToken>>,
    woken: &mut Vec<WakerToken>,
    id: ResultId,
)
    ensures
        waiters_of(*final(wakers)) == waiters_of(*old(wakers)).remove(id as int),
        final(woken)@ == (if waiters_of(*old(wakers)).dom().contains(id as int) {
            old(woken)@ + waiters_of(*old(wakers))[id as int]
        } else {
            old(woken)@
        }),
{
    match wakers.remove(&id) {
        Some(mut tokens) => {
            woken.append(&mut tokens);
        },
        None => {},
    }
    proof {
        assert(waiters_of(*wakers) =~= waiters_of(*old(wakers)).remove(id as int));
    }
}

/// Record what produces the results of a newly declared operation
fn push_kinds(kinds: &mut Vec<SlotKind>, op_id: OperationId, arity: usize, op_type: OperationType)
    ensures
        final(kinds)@ == old(kinds)@ + Seq::new(
            arity as nat,
            |i: int| output_kind(op_id, op_type, i),
        ),
{
    let mut i: usize = 0;
    proof {
        assert(kinds@ =~= old(kinds)@ + Seq::new(0, |i: int| output_kind(op_id, op_type, i)));
    }
    while i < arity
        invariant
            i <= arity,
            kinds@ == old(kinds)@ + Seq::new(i as nat, |i: int| output_kind(op_id, op_type, i)),
        decreases arity - i,
    {
        let kind = match op_type {
            OperationType::Network { .. } => SlotKind::Inbound,
            _ => SlotKind::Gate { op: op_id, index: i },
        };
        kinds.push(kind);
        proof {
            assert(kinds@ =~= old(kinds)@ + Seq::new(
                (i + 1) as nat,
                |i: int| output_kind(op_id, op_type, i),
            ));
        }
        i += 1;
    }
}

/// The inner component of the fabric: the counters from which identifiers are
/// drawn, the result buffer, and the queues to the executor and to the peer
pub struct FabricInner {
    /// The ID of the local party in the MPC execution
    party_id: u64,
    /// The next identifier to assign to a result
    next_result_id: usize,
    /// The next identifier to assign to an operation
    next_op_id: usize,
    /// The completed results of operations
    results: GrowableBuffer<OpResult>,
    /// What produces each result
    kinds: Vec<SlotKind>,
    /// For each result, the tokens of the consumers that wait for it
    wakers: HashMap<ResultId, Vec<WakerToken>>,
    /// The tokens of the consumers to wake
    woken: Vec<WakerToken>,
    /// The queue of messages to the executor
    execution_queue: SegQueue<ExecutorMessage>,
    /// Whether the executor has been told to shut down
    stopped: bool,
    /// The operations whose function failed on their arguments
    failed: Vec<OperationId>,
    /// The values that arrived from the peer before their results were
    /// allocated
    early: GrowableBuffer<ResultValue>,
    /// The queue of messages to the peer
    outbound_queue: Vec<NetworkOutbound>,
    /// Every operation that has been declared
    graph: Ghost<Seq<OperationView>>,
    /// Every message that was handed to the outbound queue
    sent_log: Ghost<Seq<OutboundView>>,
    /// The Beaver triples that have been drawn and not been used yet
    triples: Vec<(Scalar, Scalar, Scalar)>,
}

impl View for FabricInner {
    type V = FabricState;

    closed spec fn view(&self) -> FabricState {
        FabricState {
            party_id: self.party_id,
            next_result_id: self.next_result_id as int,
            next_op_id: self.next_op_id as int,
            results: results_of(self.results),
            kinds: self.kinds@,
            ops: self.graph@,
            queue: messages_of(queued_messages(self.execution_queue)),
            stopped: self.stopped,
            failed: self.failed@,
            early: early_of(self.early),
            outbound: outbound_of(self.outbound_queue@),
            sent_log: self.sent_log@,
            waiters: waiters_of(self.wakers),
            woken: self.woken@,
            triples: self.triples@,
        }
    }
}

impl FabricInner {
    /// The fabric's own records agree with one another, and the graph is well
    /// formed
    pub closed spec fn wf(&self) -> bool {
        &&& self@.graph_wf()
        &&& forall|id: int|
            (#[trigger] self.results.entry(id)) is Some ==> self.results.entry(id).unwrap().id
                == id
    }

    /// A well-formed fabric has a well-formed graph
    pub proof fn lemma_wf_graph(&self)
        requires
            self.wf(),
        ensures
            self@.graph_wf(),
    {
    }

    /// Constructor
    pub fn new(size_hint: usize, party_id: u64) -> (r: Self)
        ensures
            r.wf(),
            r@ == FabricState::initial(party_id),
    {
        let zero = ResultValue::Scalar(Scalar::zero());
        let one = ResultValue::Scalar(Scalar::one());
        let identity = ResultValue::Point(StarkPoint::identity());
        let mut results = GrowableBuffer::new(size_hint);
        results.insert(RESULT_ZERO, OpResult { id: 0, value: zero });
        results.insert(RESULT_ONE, OpResult { id: 1, value: one });
        results.insert(RESULT_IDENTITY, OpResult { id: 2, value: identity });
        let mut kinds: Vec<SlotKind> = Vec::new();
        kinds.push(SlotKind::Value);
        kinds.push(SlotKind::Value);
        kinds.push(SlotKind::Value);
        let r = FabricInner {
            party_id,
            next_result_id: N_CONSTANT_RESULTS,
            next_op_id: 0,
            results,
            kinds,
            wakers: HashMap::new(),
            woken: Vec::new(),
            execution_queue: queue_new(),
            stopped: false,
            failed: Vec::new(),
            early: GrowableBuffer::new(0),
            outbound_queue: Vec::new(),
            graph: Ghost(Seq::empty()),
            sent_log: Ghost(Seq::empty()),
            triples: Vec::new(),
        };
        proof {
            reveal(FabricState::ops_ordered);
            reveal(FabricState::sends_allocated);
            reveal(FabricState::sends_distinct);
            let expected = FabricState::initial(party_id);
            assert(r@.results =~= expected.results);
            assert(r@.kinds =~= expected.kinds);
            assert(r@.queue =~= expected.queue);
            assert(r@.early =~= expected.early);
            assert(r@.outbound =~= expected.outbound);
            assert(r@.waiters =~= expected.waiters);
            assert(r@.ops =~= expected.ops);
            assert(r@.triples =~= expected.triples);
        }
        r
    }

    /// Shutdown the inner fabric, by sending a shutdown message to the executor
    pub fn shutdown(&mut self)
        requires
            old(self).wf(),
        ensures
            final(self).wf(),
            final(self)@ == (FabricState {
                queue: old(self)@.queue.push(MessageView::Shutdown),
                ..old(self)@
            }),
    {
        let ghost before = queued_messages(self.execution_queue);
        queue_push(&mut self.execution_queue, ExecutorMessage::Shutdown);
        proof {
            assert(self@.queue =~= old(self)@.queue.push(MessageView::Shutdown));
        }
    }

    /// The ID of the local party
    pub fn party_id(&self) -> (r: PartyId)
        ensures
            r == self@.party_id,
    {
        self.party_id
    }

    /// The next identifier that a result will get
    pub fn next_result_id(&self) -> (r: ResultId)
        ensures
            r == self@.next_result_id,
    {
        self.next_result_id
    }

    /// The next identifier that an operation will get
    pub fn next_op_id(&self) -> (r: OperationId)
        ensures
            r == self@.next_op_id,
    {
        self.next_op_id
    }

    /// Get the hardcoded zero value in the fabric
    pub fn zero(&self) -> (r: ResultId)
        ensures
            r == RESULT_ZERO,
    {
        RESULT_ZERO
    }

    /// Get the hardcoded one value in the fabric
    pub fn one(&self) -> (r: ResultId)
        ensures
            r == RESULT_ONE,
    {
        RESULT_ONE
    }

    /// Get the hardcoded curve identity value in the fabric
    pub fn curve_identity(&self) -> (r: ResultId)
        ensures
            r == RESULT_IDENTITY,
    {
        RESULT_IDENTITY
    }

    /// Allocate a new plaintext value in the fabric
    pub fn allocate_value(&mut self, value: ResultValue) -> (id: ResultId)
        requires
            old(self).wf(),
            old(self)@.next_result_id < usize::MAX,
        ensures
            final(self).wf(),
            id == old(self)@.next_result_id,
            final(self)@ == old(self)@.allocate(value@),
    {
        let id = self.next_result_id;
        self.next_result_id = id + 1;
        self.kinds.push(SlotKind::Value);
        self.results.insert(id, OpResult { id, value });
        wake_waiters(&mut self.wakers, &mut self.woken, id);
        proof {
            reveal(FabricState::ops_ordered);
            reveal(FabricState::sends_allocated);
            reveal(FabricState::sends_distinct);
            let expected = old(self)@.allocate(value@);
            assert(self@.results =~= expected.results);
            assert(self@.kinds =~= expected.kinds);
            assert forall|i: int| 0 <= i < self@.kinds.len() implies FabricState::kind_wf(
                #[trigger] self@.kinds[i],
                i,
                self@.ops,
            ) by {
                if i < id {
                    assert(self@.kinds[i] == old(self)@.kinds[i]);
                }
            }
            assert forall|i: int|
                0 <= i < self@.next_result_id && #[trigger] self@.kinds[i]
                    == SlotKind::Value implies self@.results.dom().contains(i) by {
                if i < id {
                    assert(old(self)@.kinds[i] == SlotKind::Value);
                }
            }
        }
        id
    }

    /// Allocate a secret shared value in the network: the local share becomes
    /// resident and the peer's share is sent under the same id
    pub fn allocate_shared_value(&mut self, my_share: ResultValue, their_share: ResultValue) -> (id:
        ResultId)
        requires
            old(self).wf(),
            old(self)@.next_result_id < usize::MAX,
        ensures
            final(self).wf(),
            id == old(self)@.next_result_id,
            final(self)@ == old(self)@.allocate_shared(my_share@, their_share@),
    {
        let id = self.allocate_value(my_share);
        let message = NetworkOutbound { result_id: id, payload: their_share.into_payload() };
        proof {
            self.sent_log@ = self.sent_log@.push(message@);
        }
        self.outbound_queue.push(message);
        proof {
            reveal(FabricState::ops_ordered);
            reveal(FabricState::sends_allocated);
            reveal(FabricState::sends_distinct);
            let expected = old(self)@.allocate_shared(my_share@, their_share@);
            assert(self@.outbound =~= expected.outbound);
        }
        id
    }

    /// Receive a value from a network operation initiated by a peer
    ///
    /// The peer will already send the value with the corresponding ID, so all that is needed
    /// is to allocate a slot in the result buffer for the receipt
    pub fn receive_value(&mut self) -> (id: ResultId)
        requires
            old(self).wf(),
            old(self)@.next_result_id < usize::MAX,
        ensures
            final(self).wf(),
            id == old(self)@.next_result_id,
            final(self)@ == old(self)@.receive(),
    {
        let id = self.next_result_id;
        self.next_result_id = id + 1;
        self.kinds.push(SlotKind::Inbound);
        proof {
            reveal(FabricState::ops_ordered);
            reveal(FabricState::sends_allocated);
            reveal(FabricState::sends_distinct);
            let expected = old(self)@.with_slot();
            assert(self@.kinds =~= expected.kinds);
            assert forall|i: int| 0 <= i < self@.kinds.len() implies FabricState::kind_wf(
                #[trigger] self@.kinds[i],
                i,
                self@.ops,
            ) by {
                if i < id {
                    assert(self@.kinds[i] == old(self)@.kinds[i]);
                }
            }
            assert forall|i: int|
                0 <= i < self@.next_result_id && #[trigger] self@.kinds[i]
                    == SlotKind::Value implies self@.results.dom().contains(i) by {
                if i < id {
                    assert(old(self)@.kinds[i] == SlotKind::Value);
                }
            }
        }
        self.claim_early(id);
        id
    }

    /// Hold a value that arrived from the peer for a result that is not
    /// allocated yet, unless one is held for the result already
    pub fn hold_early(&mut self, id: ResultId, value: ResultValue)
        requires
            old(self).wf(),
            id < usize::MAX,
        ensures
            final(self).wf(),
            final(self)@ == old(self)@.held(id as int, value@),
    {
        if !self.early.contains(id) {
            self.early.insert(id, value);
            proof {
                assert(self@.early =~= old(self)@.held(id as int, value@).early);
            }
        }
    }

    /// Put the value that is held for a result, if there is one, on the
    /// execution queue
    fn claim_early(&mut self, id: ResultId)
        requires
            old(self).wf(),
        ensures
            final(self).wf(),
            final(self)@ == old(self)@.claimed(id as int),
    {
        match self.early.take(id) {
            Some(value) => {
                let ghost held = value@;
                queue_push(&mut self.execution_queue, ExecutorMessage::Result(OpResult { id, value }));
                proof {
                    let expected = old(self)@.claimed(id as int);
                    assert(self@.early =~= expected.early);
                    assert(self@.queue =~= expected.queue);
                }
            },
            None => {
                proof {
                    assert(self@.early =~= old(self)@.early);
                }
            },
        }
    }

    /// Allocate a new in-flight gate operation in the fabric
    pub fn new_op(&mut self, args: Vec<ResultId>, output_arity: usize, op_type: OperationType) -> (ids:
        Vec<ResultId>)
        requires
            old(self).wf(),
            output_arity >= 1,
            (op_type is Gate || op_type is Network) ==> output_arity == 1,
            old(self)@.next_result_id + output_arity <= usize::MAX,
            old(self)@.next_op_id < usize::MAX,
        ensures
            final(self).wf(),
            ids@ == old(self)@.next_op(args@, output_arity as int, op_type).result_ids(),
            final(self)@ == old(self)@.with_op(args@, output_arity as int, op_type),
    {
        proof {
            reveal(FabricState::next_op);
            reveal(FabricState::next_kinds);
            reveal(FabricState::ops_ordered);
            reveal(FabricState::sends_allocated);
            reveal(FabricState::sends_distinct);
        }
        let first = self.next_result_id;
        let op_id = self.next_op_id;
        let ghost expected = old(self)@.with_declared(args@, output_arity as int, op_type);
        // Allocate IDs for the results
        push_kinds(&mut self.kinds, op_id, output_arity, op_type);
        self.next_result_id = first + output_arity;
        self.next_op_id = op_id + 1;
        // Build the operation
        let op = Operation { id: op_id, result_id: first, output_arity, inflight_args: 0, args, op_type };
        let ids = op.result_ids();
        proof {
            self.graph@ = self.graph@.push(op@);
        }
        // Forward the op to the executor
        queue_push(&mut self.execution_queue, ExecutorMessage::Op(op));
        proof {
            assert(self@.queue =~= expected.queue);
            assert(self@.kinds =~= expected.kinds);
            assert(self@ == expected);
            assert forall|k: int| 0 <= k < self@.ops.len() implies FabricState::op_wf(
                #[trigger] self@.ops[k],
                k,
                self@.next_result_id,
            ) by {
                if k < op_id {
                    assert(self@.ops[k] == old(self)@.ops[k]);
                }
            }
            assert forall|id: int| 0 <= id < self@.kinds.len() implies FabricState::kind_wf(
                #[trigger] self@.kinds[id],
                id,
                self@.ops,
            ) by {
                if id < first {
                    assert(self@.kinds[id] == old(self)@.kinds[id]);
                    assert(FabricState::kind_wf(old(self)@.kinds[id], id, old(self)@.ops));
                }
            }
            assert forall|id: int|
                0 <= id < self@.next_result_id && #[trigger] self@.kinds[id]
                    == SlotKind::Value implies self@.results.dom().contains(id) by {
                if id < first {
                    assert(old(self)@.kinds[id] == SlotKind::Value);
                }
            }
        }
        // A value for the result of a network operation may be there already
        match op_type {
            OperationType::Network { .. } => {
                self.claim_early(first);
            },
            _ => {},
        }
        ids
    }

    /// Keep a Beaver triple that was drawn from the source of shared values
    pub fn push_triple(&mut self, triple: (Scalar, Scalar, Scalar))
        requires
            old(self).wf(),
        ensures
            final(self).wf(),
            final(self)@ == old(self)@.with_triple(triple),
    {
        self.triples.push(triple);
    }

    /// Use the oldest of the Beaver triples that have been drawn
    pub fn take_triple(&mut self) -> (triple: (Scalar, Scalar, Scalar))
        requires
            old(self).wf(),
            old(self)@.triples.len() > 0,
        ensures
            final(self).wf(),
            triple == old(self)@.triples[0],
            final(self)@ == old(self)@.without_triple(),
    {
        let triple = self.triples.remove(0);
        proof {
            assert(self@.triples =~= old(self)@.triples.drop_first());
        }
        triple
    }

    /// Record that the function of an operation fails on its arguments
    pub fn record_failure(&mut self, op_id: OperationId)
        requires
            old(self).wf(),
        ensures
            final(self).wf(),
            final(self)@ == old(self)@.with_failure(op_id),
    {
        self.failed.push(op_id);
    }

    /// The operations whose function failed on their arguments, in the order
    /// in which the executor found them
    pub fn failed_operations(&self) -> (r: Vec<OperationId>)
        ensures
            r@ == self@.failed,
    {
        self.failed.clone()
    }

    /// Whether the executor has been told to shut down
    pub fn is_stopped(&self) -> (r: bool)
        ensures
            r == self@.stopped,
    {
        self.stopped
    }

    /// Record that the executor has been told to shut down
    pub fn halt(&mut self)
        requires
            old(self).wf(),
        ensures
            final(self).wf(),
            final(self)@ == old(self)@.halted(),
    {
        self.stopped = true;
    }

    /// Put a result that arrived from the peer on the execution queue
    pub fn push_inbound(&mut self, id: ResultId, value: ResultValue)
        requires
            old(self).wf(),
        ensures
            final(self).wf(),
            final(self)@ == old(self)@.with_inbound(id, value@),
    {
        queue_push(&mut self.execution_queue, ExecutorMessage::Result(OpResult { id, value }));
        proof {
            assert(self@.queue =~= old(self)@.with_inbound(id, value@).queue);
        }
    }

    /// Take the oldest message off the execution queue
    pub fn pop_message(&mut self) -> (message: Option<ExecutorMessage>)
        requires
            old(self).wf(),
        ensures
            final(self).wf(),
            match message {
                Some(m) => old(self)@.queue.len() > 0 && m@ == old(self)@.queue[0] && final(self)@
                    == old(self)@.popped(),
                None => old(self)@.queue.len() == 0 && final(self)@ == old(self)@,
            },
    {
        let message = queue_pop(&mut self.execution_queue);
        proof {
            if message is Some {
                assert(self@.queue =~= old(self)@.queue.drop_first());
            }
        }
        message
    }

    /// Whether a result is resident
    pub fn is_complete(&self, id: ResultId) -> (r: bool)
        ensures
            r == self@.is_complete(id as int),
    {
        self.results.contains(id)
    }

    /// A copy of a result, if it is resident
    pub fn result(&self, id: ResultId) -> (r: Option<ResultValue>)
        ensures
            r is Some <==> self@.is_complete(id as int),
            r matches Some(value) ==> value@ == self@.results[id as int],
    {
        match self.results.get(id) {
            Some(result) => Some(result.value.clone()),
            None => None,
        }
    }

    /// What produces a result, if the result has been allocated
    pub fn kind(&self, id: ResultId) -> (r: Option<SlotKind>)
        ensures
            r == (if id < self@.kinds.len() {
                Some(self@.kinds[id as int])
            } else {
                None
            }),
    {
        if id < self.kinds.len() {
            Some(self.kinds[id])
        } else {
            None
        }
    }

    /// Make a result resident, and mark the consumers that waited for it as
    /// ones to wake
    pub fn fulfil(&mut self, id: ResultId, value: ResultValue)
        requires
            old(self).wf(),
            id < old(self)@.next_result_id,
            !old(self)@.is_complete(id as int),
        ensures
            final(self).wf(),
            final(self)@ == old(self)@.fulfilled(id as int, value@),
    {
        self.results.insert(id, OpResult { id, value });
        wake_waiters(&mut self.wakers, &mut self.woken, id);
        proof {
            let expected = old(self)@.fulfilled(id as int, value@);
            assert(self@.results =~= expected.results);
        }
    }

    /// Hand a payload to the outbound queue, tagged with the result that it
    /// fulfils on the peer's side
    pub fn send_payload(&mut self, id: ResultId, payload: NetworkPayload)
        requires
            old(self).wf(),
            id < old(self)@.next_result_id,
            old(self)@.unsent(id as int),
        ensures
            final(self).wf(),
            final(self)@ == old(self)@.sent(id, payload@),
    {
        let message = NetworkOutbound { result_id: id, payload };
        proof {
            self.sent_log@ = self.sent_log@.push(message@);
        }
        self.outbound_queue.push(message);
        proof {
            reveal(FabricState::ops_ordered);
            reveal(FabricState::sends_allocated);
            reveal(FabricState::sends_distinct);
            assert(self@.outbound =~= old(self)@.sent(id, payload@).outbound);
        }
    }

    /// Register a consumer to be woken once a result is resident
    pub fn register_waiter(&mut self, id: ResultId, token: WakerToken)
        requires
            old(self).wf(),
        ensures
            final(self).wf(),
            final(self)@ == old(self)@.with_waiter(id as int, token),
    {
        let mut tokens = match self.wakers.remove(&id) {
            Some(tokens) => tokens,
            None => Vec::new(),
        };
        tokens.push(token);
        self.wakers.insert(id, tokens);
        proof {
            assert(self@.waiters =~= old(self)@.with_waiter(id as int, token).waiters);
        }
    }

    /// Take the messages to the peer off the outbound queue, the oldest first
    pub fn drain_outbound(&mut self) -> (messages: Vec<NetworkOutbound>)
        requires
            old(self).wf(),
        ensures
            final(self).wf(),
            outbound_of(messages@) == old(self)@.outbound,
            final(self)@ == (FabricState { outbound: Seq::empty(), ..old(self)@ }),
    {
        let mut messages: Vec<NetworkOutbound> = Vec::new();
        messages.append(&mut self.outbound_queue);
        proof {
            assert(self@.outbound =~= Seq::<OutboundView>::empty());
            assert(outbound_of(messages@) =~= old(self)@.outbound);
        }
        messages
    }

    /// Take the tokens of the consumers to wake
    pub fn drain_woken(&mut self) -> (tokens: Vec<WakerToken>)
        requires
            old(self).wf(),
        ensures
            final(self).wf(),
            tokens@ == old(self)@.woken,
            final(self)@ == (FabricState { woken: Seq::empty(), ..old(self)@ }),
    {
        let mut tokens: Vec<WakerToken> = Vec::new();
        tokens.append(&mut self.woken);
        proof {
            assert(tokens@ =~= old(self)@.woken);
        }
        tokens
    }
}

/// The result id under which the local share of the MAC key is allocated
pub const RESULT_MAC_KEY: ResultId = 3;

/// A fabric for the MPC protocol: the graph of the computation, the executor
/// that evaluates it, and the source of the values that the parties shared
/// before the computation.
///
/// Declaring a gate does not evaluate it: the declaration hands back a handle
/// to the result at once, so that the circuit can be built ahead of its
/// evaluation. The executor evaluates each gate whose arguments are resident
/// whenever it is run.
pub struct MpcFabric<S: SharedValueSource> {
    /// The inner fabric
    inner: FabricInner,
    /// The executor of the graph
    executor: Executor,
    /// The underlying shared randomness source
    beaver_source: S,
}

impl<S: SharedValueSource> View for MpcFabric<S> {
    type V = FabricState;

    closed spec fn view(&self) -> FabricState {
        self.inner@
    }
}

impl<S: SharedValueSource> MpcFabric<S> {
    /// The fabric's records agree with one another: the graph is well formed,
    /// every resident result of a gate is the value of its gate, the
    /// executor's records agree with the graph, and the share of the MAC key is
    /// in its place
    pub closed spec fn wf(&self) -> bool {
        &&& self.inner.wf()
        &&& self.inner@.results_sound()
        &&& self.executor.wf(self.inner@)
        &&& self.inner@.next_result_id > RESULT_MAC_KEY
        &&& self.inner@.kinds[RESULT_MAC_KEY as int] == SlotKind::Value
    }

    /// Whether the executor has been shut down
    pub open spec fn is_shutdown(&self) -> bool {
        self@.stopped
    }

    /// What holds of the state of a well-formed fabric
    pub proof fn lemma_wf(&self)
        requires
            self.wf(),
        ensures
            self@.graph_wf(),
            self@.results_sound(),
            self@.results.dom().contains(RESULT_MAC_KEY as int),
            self@.queue.len() == 0 ==> self@.quiescent(),
    {
        self.inner.lemma_wf_graph();
        if self@.queue.len() == 0 {
            self.executor.lemma_quiescent(self.inner@);
        }
    }

    /// Constructor
    pub fn new(party_id: PartyId, beaver_source: S) -> (r: Self)
        ensures
            r.wf(),
            !r.is_shutdown(),
            exists|key: Scalar| r@ == #[trigger] FabricState::keyed(party_id, key),
    {
        Self::new_with_size_hint(DEFAULT_SIZE_HINT, party_id, beaver_source)
    }

    /// Constructor that takes an additional size hint, indicating how much buffer space
    /// the fabric should allocate for results. The size is given in number of gates
    pub fn new_with_size_hint(size_hint: usize, party_id: PartyId, beaver_source: S) -> (r: Self)
        ensures
            r.wf(),
            !r.is_shutdown(),
            exists|key: Scalar| r@ == #[trigger] FabricState::keyed(party_id, key),
    {
        let mut beaver_source = beaver_source;
        let mut inner = FabricInner::new(size_hint, party_id);
        let executor = Executor::new(size_hint);
        // Sample a MAC key from the pre-shared values in the beaver source
        let key = beaver_source.next_shared_value();
        proof {
            inner.lemma_wf_graph();
            executor.lemma_new_wf(inner@);
            assert(inner@.results_sound());
            executor.lemma_wf_after_allocate(inner@, Value::Scalar(key));
            crate::fabric::evaluation::lemma_sound_after_allocate(inner@, Value::Scalar(key));
        }
        inner.allocate_value(ResultValue::Scalar(key));
        let r = MpcFabric { inner, executor, beaver_source };
        proof {
            assert(r@ == FabricState::keyed(party_id, key));
        }
        r
    }

    /// Get the party ID of the local party
    pub fn party_id(&self) -> (r: PartyId)
        ensures
            r == self@.party_id,
    {
        self.inner.party_id()
    }

    /// The next identifier that a result will get
    pub fn next_result_id(&self) -> (r: ResultId)
        ensures
            r == self@.next_result_id,
    {
        self.inner.next_result_id()
    }

    /// Whether there is room for `count` more results and operations
    pub fn has_room(&self, count: usize) -> (r: bool)
        requires
            self.wf(),
        ensures
            r == self@.has_room(count as int),
    {
        proof {
            self.inner.lemma_wf_graph();
        }
        let results = self.inner.next_result_id();
        let ops = self.inner.next_op_id();
        count <= usize::MAX - results && count <= usize::MAX - ops
    }

    /// The number of Beaver triples that have been drawn and not been used yet
    pub fn available_triples(&self) -> (r: usize)
        ensures
            r == self@.triples.len(),
    {
        self.inner.triples.len()
    }

    /// Shutdown the fabric: tell the executor to stop once it has handled the
    /// messages that are on the queue before this one
    pub fn shutdown(&mut self)
        requires
            old(self).wf(),
        ensures
            final(self).wf(),
            final(self)@ == (FabricState {
                queue: old(self)@.queue.push(MessageView::Shutdown),
                ..old(self)@
            }),
    {
        let ghost s0 = self.inner@;
        self.inner.shutdown();
        proof {
            assert(s0.queue.push(MessageView::Shutdown).drop_last() =~= s0.queue);
            self.executor.lemma_wf_frame(s0, self.inner@);
            self.inner.lemma_wf_graph();
            crate::fabric::evaluation::lemma_sound_frame(s0, self.inner@);
        }
    }

    /// Draw Beaver triples from the source of shared values, in one request,
    /// and keep them for the multiplications to come
    pub fn draw_triples(&mut self, count: usize)
        requires
            old(self).wf(),
        ensures
            final(self).wf(),
            final(self)@.triples.len() == old(self)@.triples.len() + count,
            old(self)@.triples.is_prefix_of(final(self)@.triples),
            final(self)@ == (FabricState { triples: final(self)@.triples, ..old(self)@ }),
            final(self)@ == old(self)@.with_drawn(
                final(self)@.triples.skip(old(self)@.triples.len() as int),
            ),
    {
        let ghost s0 = self.inner@;
        let (a, b, c) = self.beaver_source.next_triplet_batch(count);
        let mut i: usize = 0;
        while i < count
            invariant
                i <= count,
                a@.len() == count,
                b@.len() == count,
                c@.len() == count,
                self.wf(),
                self@.triples.len() == s0.triples.len() + i,
                s0.triples.is_prefix_of(self@.triples),
                self@ == (FabricState { triples: self@.triples, ..s0 }),
            decreases count - i,
        {
            let triple = (a[i], b[i], c[i]);
            let ghost s1 = self.inner@;
            self.inner.push_triple(triple);
            proof {
                self.executor.lemma_wf_frame(s1, self.inner@);
                self.inner.lemma_wf_graph();
                crate::fabric::evaluation::lemma_sound_frame(s1, self.inner@);
            }
            i += 1;
        }
        proof {
            assert(s0.triples + self@.triples.skip(s0.triples.len() as int) =~= self@.triples);
        }
    }

    /// Draw from the source of shared values, in one request, as many Beaver
    /// triples as are lacking for `needed` of them to be there
    pub fn draw_missing_triples(&mut self, needed: usize)
        requires
            old(self).wf(),
        ensures
            final(self).wf(),
            final(self)@.triples.len() >= needed,
            old(self)@.draws(final(self)@.triples.skip(old(self)@.triples.len() as int), needed as int),
            final(self)@ == old(self)@.with_drawn(
                final(self)@.triples.skip(old(self)@.triples.len() as int),
            ),
            old(self)@.triples.len() >= needed ==> final(self)@ == old(self)@,
    {
        let available = self.available_triples();
        if available < needed {
            self.draw_triples(needed - available);
        } else {
            proof {
                assert(self@.triples + self@.triples.skip(self@.triples.len() as int)
                    =~= self@.triples);
            }
        }
    }

    /// Draw shared values from the source of shared values
    pub fn draw_shared_values(&mut self, count: usize) -> (r: Vec<Scalar>)
        ensures
            r@.len() == count,
            final(self).wf() == old(self).wf(),
            final(self)@ == old(self)@,
    {
        self.beaver_source.next_shared_value_batch(count)
    }

    /// Draw a shared bit from the source of shared values
    pub fn draw_shared_bit(&mut self) -> (r: Scalar)
        ensures
            final(self).wf() == old(self).wf(),
            final(self)@ == old(self)@,
    {
        self.beaver_source.next_shared_bit()
    }

    /// Draw shared bits from the source of shared values
    pub fn draw_shared_bits(&mut self, count: usize) -> (r: Vec<Scalar>)
        ensures
            r@.len() == count,
            final(self).wf() == old(self).wf(),
            final(self)@ == old(self)@,
    {
        self.beaver_source.next_shared_bit_batch(count)
    }

    /// Draw a pair of shared values that are multiplicative inverses of one
    /// another from the source of shared values
    pub fn draw_inverse_pair(&mut self) -> (r: (Scalar, Scalar))
        ensures
            final(self).wf() == old(self).wf(),
            final(self)@ == old(self)@,
    {
        self.beaver_source.next_shared_inverse_pair()
    }

    /// Draw pairs of shared values that are multiplicative inverses of one
    /// another from the source of shared values
    pub fn draw_inverse_pairs(&mut self, count: usize) -> (r: (Vec<Scalar>, Vec<Scalar>))
        ensures
            r.0@.len() == count,
            r.1@.len() == count,
            final(self).wf() == old(self).wf(),
            final(self)@ == old(self)@,
    {
        self.beaver_source.next_shared_inverse_pair_batch(count)
    }

    /// Use the oldest of the Beaver triples that have been drawn
    pub fn take_triple(&mut self) -> (triple: (Scalar, Scalar, Scalar))
        requires
            old(self).wf(),
            old(self)@.triples.len() > 0,
        ensures
            final(self).wf(),
            triple == old(self)@.triples[0],
            final(self)@ == old(self)@.without_triple(),
    {
        let ghost s0 = self.inner@;
        let triple = self.inner.take_triple();
        proof {
            self.executor.lemma_wf_frame(s0, self.inner@);
            self.inner.lemma_wf_graph();
            crate::fabric::evaluation::lemma_sound_frame(s0, self.inner@);
        }
        triple
    }

    // ------------------------
    // | Low Level Allocation |
    // ------------------------

    /// Allocate a new plaintext value in the fabric
    pub fn allocate_value(&mut self, value: ResultValue) -> (id: ResultId)
        requires
            old(self).wf(),
            old(self)@.has_room(1),
        ensures
            final(self).wf(),
            id == old(self)@.next_result_id,
            final(self)@ == old(self)@.allocate(value@),
    {
        proof {
            self.inner.lemma_wf_graph();
            self.executor.lemma_wf_after_allocate(self.inner@, value@);
            crate::fabric::evaluation::lemma_sound_after_allocate(self.inner@, value@);
        }
        self.inner.allocate_value(value)
    }

    /// Allocate a shared value in the fabric: the local share becomes resident,
    /// and the peer's share is sent under the same id
    pub fn allocate_shared_value(&mut self, my_share: ResultValue, their_share: ResultValue) -> (id:
        ResultId)
        requires
            old(self).wf(),
            old(self)@.has_room(1),
        ensures
            final(self).wf(),
            id == old(self)@.next_result_id,
            final(self)@ == old(self)@.allocate_shared(my_share@, their_share@),
    {
        let ghost s0 = self.inner@;
        proof {
            self.inner.lemma_wf_graph();
            self.executor.lemma_wf_after_share(s0, my_share@, their_share@);
            crate::fabric::evaluation::lemma_sound_after_allocate(s0, my_share@);
            crate::fabric::evaluation::lemma_sound_keeps(
                s0.allocate(my_share@),
                s0.allocate_shared(my_share@, their_share@),
            );
        }
        let id = self.inner.allocate_shared_value(my_share, their_share);
        proof {
            self.inner.lemma_wf_graph();
        }
        id
    }

    /// Allocate a slot for a value that the peer sends
    pub fn receive_slot(&mut self) -> (id: ResultId)
        requires
            old(self).wf(),
            old(self)@.has_room(1),
        ensures
            final(self).wf(),
            id == old(self)@.next_result_id,
            final(self)@ == old(self)@.receive(),
    {
        let ghost s0 = self.inner@;
        proof {
            self.inner.lemma_wf_graph();
            self.executor.lemma_wf_after_receive(s0);
            crate::fabric::evaluation::lemma_sound_frame(s0, s0.receive());
        }
        self.inner.receive_value()
    }

    /// Allocate a new in-flight operation in the fabric
    pub fn new_op(&mut self, args: Vec<ResultId>, output_arity: usize, op_type: OperationType) -> (ids:
        Vec<ResultId>)
        requires
            old(self).wf(),
            output_arity >= 1,
            (op_type is Gate || op_type is Network) ==> output_arity == 1,
            old(self)@.has_room(output_arity as int),
        ensures
            final(self).wf(),
            ids@ == old(self)@.next_op(args@, output_arity as int, op_type).result_ids(),
            final(self)@ == old(self)@.with_op(args@, output_arity as int, op_type),
    {
        let ghost s0 = self.inner@;
        proof {
            self.inner.lemma_wf_graph();
            self.executor.lemma_wf_after_op(s0, args@, output_arity as int, op_type);
            crate::fabric::evaluation::lemma_sound_frame(
                s0,
                s0.with_op(args@, output_arity as int, op_type),
            );
        }
        self.inner.new_op(args, output_arity, op_type)
    }

    // ------------
    // | Executor |
    // ------------

    /// Put a payload that arrived from the peer on the execution queue, tagged
    /// with the result that it fulfils
    pub fn receive_message(&mut self, result_id: ResultId, payload: NetworkPayload)
        requires
            old(self).wf(),
        ensures
            final(self).wf(),
            final(self)@ == old(self)@.with_inbound(result_id, payload@),
    {
        let ghost s0 = self.inner@;
        self.inner.push_inbound(result_id, ResultValue::from_payload(payload));
        proof {
            assert(s0.queue.push(MessageView::Result(result_id, payload@)).drop_last() =~= s0.queue);
            self.executor.lemma_wf_frame(s0, self.inner@);
            self.inner.lemma_wf_graph();
            crate::fabric::evaluation::lemma_sound_frame(s0, self.inner@);
        }
    }

    /// Handle the oldest message on the execution queue, if there is one and
    /// the executor has not shut down: a value from the peer is taken in, an
    /// operation is evaluated or set to wait, and whatever has its arguments
    /// resident by that is evaluated. Returns whether a message was handled.
    pub fn step_executor(&mut self) -> (handled: bool)
        requires
            old(self).wf(),
        ensures
            final(self).wf(),
            final(self)@.evolves_from(old(self)@),
            final(self)@.results_sound(),
            handled <==> (!old(self).is_shutdown() && old(self)@.queue.len() > 0),
            handled ==> final(self)@.queue == old(self)@.queue.drop_first(),
            handled ==> final(self)@.fulfilled_from(old(self)@, seq![old(self)@.queue[0]]),
            handled ==> final(self)@.delivered(old(self)@, seq![old(self)@.queue[0]]),
            handled ==> (final(self).is_shutdown() <==> old(self)@.queue[0] is Shutdown),
            !handled ==> final(self)@ == old(self)@ && final(self).is_shutdown() == old(
                self,
            ).is_shutdown(),
    {
        let handled = self.executor.step(&mut self.inner);
        handled
    }

    /// Handle the messages on the execution queue, the oldest first, until
    /// the queue is empty or the executor is told to shut down: every value
    /// from the peer among them is taken in, and every operation whose
    /// arguments are resident is evaluated
    pub fn run_executor(&mut self)
        requires
            old(self).wf(),
        ensures
            final(self).wf(),
            final(self)@.evolves_from(old(self)@),
            final(self)@.results_sound(),
            final(self).is_shutdown() || final(self)@.queue.len() == 0,
            !final(self).is_shutdown() ==> final(self)@.quiescent(),
            old(self).is_shutdown() ==> final(self)@ == old(self)@ && final(self).is_shutdown(),
            !old(self).is_shutdown() ==> final(self)@.queue == old(self)@.queue.skip(
                handled_len(old(self)@.queue) as int,
            ),
            !old(self).is_shutdown() ==> (final(self).is_shutdown() <==> handled_len(
                old(self)@.queue,
            ) > 0 && old(self)@.queue[handled_len(old(self)@.queue) - 1] is Shutdown),
            !old(self).is_shutdown() ==> final(self)@.fulfilled_from(
                old(self)@,
                old(self)@.queue.take(handled_len(old(self)@.queue) as int),
            ),
            !old(self).is_shutdown() ==> final(self)@.delivered(
                old(self)@,
                old(self)@.queue.take(handled_len(old(self)@.queue) as int),
            ),
            !old(self).is_shutdown() && !final(self).is_shutdown() ==> final(self)@.outcome_of(
                old(self)@,
                old(self)@.queue,
            ),
    {
        let ghost queue = self.inner@.queue;
        self.executor.run(&mut self.inner);
        proof {
            if !old(self).is_shutdown() && !self.is_shutdown() {
                crate::fabric::evaluation::lemma_handled_len_bound(queue);
                assert(queue.skip(handled_len(queue) as int).len() == 0);
                assert(queue.take(handled_len(queue) as int) =~= queue);
            }
        }
    }

    /// The operations whose function failed on their arguments, in the order
    /// in which the executor found them. Such an operation is an error of the
    /// program: its results never become resident.
    pub fn failed_operations(&self) -> (r: Vec<OperationId>)
        ensures
            r@ == self@.failed,
    {
        self.inner.failed_operations()
    }

    /// Take the messages to the peer off the outbound queue, the oldest first
    pub fn drain_outbound(&mut self) -> (messages: Vec<NetworkOutbound>)
        requires
            old(self).wf(),
        ensures
            final(self).wf(),
            outbound_of(messages@) == old(self)@.outbound,
            final(self)@ == (FabricState { outbound: Seq::empty(), ..old(self)@ }),
    {
        let ghost s0 = self.inner@;
        let messages = self.inner.drain_outbound();
        proof {
            self.executor.lemma_wf_frame(s0, self.inner@);
            self.inner.lemma_wf_graph();
            crate::fabric::evaluation::lemma_sound_frame(s0, self.inner@);
        }
        messages
    }

    /// Take the tokens of the consumers to wake
    pub fn drain_woken(&mut self) -> (tokens: Vec<WakerToken>)
        requires
            old(self).wf(),
        ensures
            final(self).wf(),
            tokens@ == old(self)@.woken,
            final(self)@ == (FabricState { woken: Seq::empty(), ..old(self)@ }),
    {
        let ghost s0 = self.inner@;
        let tokens = self.inner.drain_woken();
        proof {
            self.executor.lemma_wf_frame(s0, self.inner@);
            self.inner.lemma_wf_graph();
            crate::fabric::evaluation::lemma_sound_frame(s0, self.inner@);
        }
        tokens
    }

    /// A copy of a result, if it is resident
    pub fn result(&self, id: ResultId) -> (r: Option<ResultValue>)
        ensures
            r is Some <==> self@.is_complete(id as int),
            r matches Some(value) ==> value@ == self@.results[id as int],
    {
        self.inner.result(id)
    }

    /// Look a result up on behalf of a consumer: the value if the result is
    /// resident; if it is not, the consumer is registered to be woken once it is
    pub fn poll(&mut self, id: ResultId, token: WakerToken) -> (r: Option<ResultValue>)
        requires
            old(self).wf(),
        ensures
            final(self).wf(),
            r is Some <==> old(self)@.is_complete(id as int),
            r matches Some(value) ==> value@ == old(self)@.results[id as int] && final(self)@
                == old(self)@,
            r is None ==> final(self)@ == old(self)@.with_waiter(id as int, token),
    {
        match self.inner.result(id) {
            Some(value) => Some(value),
            None => {
                let ghost s0 = self.inner@;
                self.inner.register_waiter(id, token);
                proof {
                    self.executor.lemma_wf_frame(s0, self.inner@);
                    self.inner.lemma_wf_graph();
                    crate::fabric::evaluation::lemma_sound_frame(s0, self.inner@);
                }
                None
            },
        }
    }

    // ------------------------
    // | Constants Allocation |
    // ------------------------

    /// Get the hardcoded zero wire as a raw `ScalarResult`
    pub fn zero(&self) -> (r: ResultHandle<Scalar>)
        ensures
            r.id == RESULT_ZERO,
    {
        ResultHandle::new(self.inner.zero())
    }

    /// Get the hardcoded one wire as a raw `ScalarResult`
    pub fn one(&self) -> (r: ResultHandle<Scalar>)
        ensures
            r.id == RESULT_ONE,
    {
        ResultHandle::new(self.inner.one())
    }

    /// Get the hardcoded curve identity wire as a raw `StarkPoint`
    pub fn curve_identity(&self) -> (r: ResultHandle<StarkPoint>)
        ensures
            r.id == RESULT_IDENTITY,
    {
        ResultHandle::new(self.inner.curve_identity())
    }

    /// A handle to the local share of the MAC key
    pub fn mac_key(&self) -> (r: ResultHandle<Scalar>)
        ensures
            r.id == RESULT_MAC_KEY,
    {
        ResultHandle::new(RESULT_MAC_KEY)
    }

    // -------------------
    // | Wire Allocation |
    // -------------------

    /// Allocate a public value in the fabric
    pub fn allocate_scalar(&mut self, value: Scalar) -> (r: ResultHandle<Scalar>)
        requires
            old(self).wf(),
            old(self)@.has_room(1),
        ensures
            final(self).wf(),
            r.id == old(self)@.next_result_id,
            final(self)@ == old(self)@.allocate(Value::Scalar(value)),
    {
        let id = self.allocate_value(ResultValue::Scalar(value));
        ResultHandle::new(id)
    }

    /// Allocate a batch of scalars in the fabric
    pub fn allocate_scalars(&mut self, values: Vec<Scalar>) -> (r: Vec<ResultHandle<Scalar>>)
        requires
            old(self).wf(),
            old(self)@.has_room(values@.len() as int),
        ensures
            final(self).wf(),
            crate::fabric::result::handles_from(
                r@,
                old(self)@.next_result_id,
                values@.len() as int,
            ),
            final(self)@ == old(self)@.allocate_all(crate::fabric::result::scalar_values(values@)),
            final(self)@.advanced(old(self)@, values@.len() as int, 0, 0),
    {
        let ghost s0 = self@;
        let ghost all = crate::fabric::result::scalar_values(values@);
        let mut handles: Vec<ResultHandle<Scalar>> = Vec::with_capacity(values.len());
        let mut i: usize = 0;
        proof {
            assert(all.subrange(0, 0) =~= Seq::<Value>::empty());
        }
        while i < values.len()
            invariant
                i <= values@.len(),
                self.wf(),
                s0.has_room(values@.len() as int),
                all == crate::fabric::result::scalar_values(values@),
                self@ == s0.allocate_all(all.subrange(0, i as int)),
                self@.advanced(s0, i as int, 0, 0),
                crate::fabric::result::handles_from(handles@, s0.next_result_id, i as int),
            decreases values@.len() - i,
        {
            let handle = self.allocate_scalar(values[i]);
            handles.push(handle);
            proof {
                let next = all.subrange(0, i + 1);
                assert(next.drop_last() =~= all.subrange(0, i as int));
                assert(next.last() == Value::Scalar(values@[i as int]));
            }
            i += 1;
        }
        proof {
            assert(all.subrange(0, i as int) =~= all);
        }
        handles
    }

    /// Allocate a public curve point in the fabric
    pub fn allocate_point(&mut self, value: StarkPoint) -> (r: ResultHandle<StarkPoint>)
        requires
            old(self).wf(),
            old(self)@.has_room(1),
        ensures
            final(self).wf(),
            r.id == old(self)@.next_result_id,
            final(self)@ == old(self)@.allocate(Value::Point(value)),
    {
        let id = self.allocate_value(ResultValue::Point(value));
        ResultHandle::new(id)
    }

    /// Allocate a batch of points in the fabric
    pub fn allocate_points(&mut self, values: Vec<StarkPoint>) -> (r: Vec<ResultHandle<StarkPoint>>)
        requires
            old(self).wf(),
            old(self)@.has_room(values@.len() as int),
        ensures
            final(self).wf(),
            crate::fabric::result::handles_from(
                r@,
                old(self)@.next_result_id,
                values@.len() as int,
            ),
            final(self)@ == old(self)@.allocate_all(crate::fabric::result::point_values(values@)),
            final(self)@.advanced(old(self)@, values@.len() as int, 0, 0),
    {
        let ghost s0 = self@;
        let ghost all = crate::fabric::result::point_values(values@);
        let mut handles: Vec<ResultHandle<StarkPoint>> = Vec::with_capacity(values.len());
        let mut i: usize = 0;
        proof {
            assert(all.subrange(0, 0) =~= Seq::<Value>::empty());
        }
        while i < values.len()
            invariant
                i <= values@.len(),
                self.wf(),
                s0.has_room(values@.len() as int),
                all == crate::fabric::result::point_values(values@),
                self@ == s0.allocate_all(all.subrange(0, i as int)),
                self@.advanced(s0, i as int, 0, 0),
                crate::fabric::result::handles_from(handles@, s0.next_result_id, i as int),
            decreases values@.len() - i,
        {
            let handle = self.allocate_point(values[i]);
            handles.push(handle);
            proof {
                let next = all.subrange(0, i + 1);
                assert(next.drop_last() =~= all.subrange(0, i as int));
                assert(next.last() == Value::Point(values@[i as int]));
            }
            i += 1;
        }
        proof {
            assert(all.subrange(0, i as int) =~= all);
        }
        handles
    }

    /// Receive a value from the peer
    pub fn receive_value<T>(&mut self) -> (r: ResultHandle<T>)
        requires
            old(self).wf(),
            old(self)@.has_room(1),
        ensures
            final(self).wf(),
            r.id == old(self)@.next_result_id,
            final(self)@ == old(self)@.receive(),
    {
        let id = self.receive_slot();
        ResultHandle::new(id)
    }

    /// Send a value to the peer
    pub fn send_value<T>(&mut self, value: &ResultHandle<T>) -> (r: ResultHandle<T>)
        requires
            old(self).wf(),
            old(self)@.has_room(1),
        ensures
            final(self).wf(),
            r.id == old(self)@.next_result_id,
            final(self)@ == old(self)@.with_network_op(
                seq![value.id],
                NetworkFunction::SendArgument,
            ),
    {
        let mut args: Vec<ResultId> = Vec::new();
        args.push(value.id);
        proof {
            assert(args@ =~= seq![value.id]);
        }
        self.new_network_op(args, NetworkFunction::SendArgument)
    }

    /// Send a batch of values to the counterparty
    pub fn send_values<T: crate::fabric::gate::BatchElement>(
        &mut self,
        values: &[ResultHandle<T>],
    ) -> (r: ResultHandle<Vec<T>>)
        requires
            old(self).wf(),
            old(self)@.has_room(1),
        ensures
            final(self).wf(),
            r.id == old(self)@.next_result_id,
            final(self)@ == old(self)@.with_network_op(
                crate::fabric::result::ids_of(values@),
                T::send_function(),
            ),
    {
        let ids = crate::fabric::result::collect_ids(values);
        self.new_network_op(ids, T::batch_send_function())
    }

    /// Exchange a value with the peer, i.e. send then receive or receive then send
    /// based on the party ID
    ///
    /// Returns a handle to the received value, which will be different for different parties
    pub fn exchange_value<T>(&mut self, value: &ResultHandle<T>) -> (r: ResultHandle<T>)
        requires
            old(self).wf(),
            old(self)@.has_room(2),
        ensures
            final(self).wf(),
            r.id == old(self)@.exchanged_id(),
            final(self)@ == old(self)@.exchange(seq![value.id], NetworkFunction::SendArgument),
    {
        if self.party_id() == crate::PARTY0 {
            // Party 0 sends first then receives
            self.send_value(value);
            self.receive_value()
        } else {
            // Party 1 receives first then sends
            let handle = self.receive_value();
            self.send_value(value);
            handle
        }
    }

    /// Exchange a batch of values with the peer, i.e. send then receive or receive then send
    /// based on party ID
    pub fn exchange_values<T: crate::fabric::gate::BatchElement>(
        &mut self,
        values: &[ResultHandle<T>],
    ) -> (r: ResultHandle<Vec<T>>)
        requires
            old(self).wf(),
            old(self)@.has_room(2),
        ensures
            final(self).wf(),
            r.id == old(self)@.exchanged_id(),
            final(self)@ == old(self)@.exchange(
                crate::fabric::result::ids_of(values@),
                T::send_function(),
            ),
    {
        if self.party_id() == crate::PARTY0 {
            self.send_values(values);
            self.receive_value()
        } else {
            let handle = self.receive_value();
            self.send_values(values);
            handle
        }
    }

    /// Share a public value with the counterparty
    pub fn share_plaintext<T>(&mut self, value: ResultValue, sender: PartyId) -> (r: ResultHandle<T>)
        requires
            old(self).wf(),
            old(self)@.has_room(1),
        ensures
            final(self).wf(),
            r.id == old(self)@.next_result_id,
            final(self)@ == old(self)@.share_plaintext(value@, sender),
    {
        if self.party_id() == sender {
            let copy = value.clone();
            let id = self.allocate_shared_value(value, copy);
            ResultHandle::new(id)
        } else {
            self.receive_value()
        }
    }

    /// Share a batch of public values with the counterparty
    pub fn batch_share_plaintext<T>(&mut self, values: ResultValue, sender: PartyId) -> (r:
        ResultHandle<Vec<T>>)
        requires
            old(self).wf(),
            old(self)@.has_room(1),
        ensures
            final(self).wf(),
            r.id == old(self)@.next_result_id,
            final(self)@ == old(self)@.share_plaintext(values@, sender),
    {
        self.share_plaintext(values, sender)
    }

    // -------------------
    // | Gate Definition |
    // -------------------

    /// Construct a new gate operation in the fabric, i.e. one that can be evaluated immediate given
    /// its inputs
    pub fn new_gate_op<T>(&mut self, args: Vec<ResultId>, function: GateFunction) -> (r:
        ResultHandle<T>)
        requires
            old(self).wf(),
            old(self)@.has_room(1),
        ensures
            final(self).wf(),
            r.id == old(self)@.next_result_id,
            final(self)@ == old(self)@.with_gate(args@, function),
    {
        proof {
            reveal(FabricState::next_op);
        }
        let ids = self.new_op(args, 1, OperationType::Gate { function });
        ResultHandle::new(ids[0])
    }

    /// Construct a new batch gate operation in the fabric, i.e. one that can be evaluated to return
    /// an array of results
    ///
    /// The array must be sized so that the fabric knows how many results to allocate buffer space for
    /// ahead of execution
    pub fn new_batch_gate_op<T>(
        &mut self,
        args: Vec<ResultId>,
        output_arity: usize,
        function: BatchGateFunction,
    ) -> (r: Vec<ResultHandle<T>>)
        requires
            old(self).wf(),
            output_arity >= 1,
            old(self)@.has_room(output_arity as int),
        ensures
            final(self).wf(),
            crate::fabric::result::handles_from(
                r@,
                old(self)@.next_result_id,
                output_arity as int,
            ),
            crate::fabric::result::ids_of(r@) == crate::fabric::result::range_ids(
                old(self)@.next_result_id,
                output_arity as int,
            ),
            final(self)@ == old(self)@.with_batch_gate(args@, output_arity as int, function),
            final(self)@.advanced(old(self)@, output_arity as int, 1, 0),
    {
        proof {
            reveal(FabricState::next_op);
        }
        let ids = self.new_op(args, output_arity, OperationType::GateBatch { function });
        let handles = crate::fabric::result::handles_of(&ids);
        proof {
            assert(ids@ =~= crate::fabric::result::range_ids(
                old(self)@.next_result_id,
                output_arity as int,
            ));
            assert(handles@.len() == crate::fabric::result::ids_of(handles@).len());
            assert(ids@.len() == output_arity);
            assert forall|i: int| 0 <= i < output_arity implies (#[trigger] handles@[i]).id
                == old(self)@.next_result_id + i by {
                assert(crate::fabric::result::ids_of(handles@)[i] == ids@[i]);
            }
        }
        handles
    }

    /// Construct a new network operation in the fabric, i.e. one that requires a value to be sent
    /// over the channel
    pub fn new_network_op<T>(&mut self, args: Vec<ResultId>, function: NetworkFunction) -> (r:
        ResultHandle<T>)
        requires
            old(self).wf(),
            old(self)@.has_room(1),
        ensures
            final(self).wf(),
            r.id == old(self)@.next_result_id,
            final(self)@ == old(self)@.with_network_op(args@, function),
    {
        proof {
            reveal(FabricState::next_op);
        }
        let ids = self.new_op(args, 1, OperationType::Network { function });
        ResultHandle::new(ids[0])
    }

    /// Declare a gate with one argument
    pub fn unary_gate<T>(&mut self, a: ResultId, function: GateFunction) -> (r: ResultHandle<T>)
        requires
            old(self).wf(),
            old(self)@.has_room(1),
        ensures
            final(self).wf(),
            r.id == old(self)@.next_result_id,
            final(self)@ == old(self)@.with_gate(seq![a], function),
    {
        let mut args: Vec<ResultId> = Vec::new();
        args.push(a);
        proof {
            assert(args@ =~= seq![a]);
        }
        self.new_gate_op(args, function)
    }

    /// Declare a gate with two arguments
    pub fn binary_gate<T>(&mut self, a: ResultId, b: ResultId, function: GateFunction) -> (r:
        ResultHandle<T>)
        requires
            old(self).wf(),
            old(self)@.has_room(1),
        ensures
            final(self).wf(),
            r.id == old(self)@.next_result_id,
            final(self)@ == old(self)@.with_gate(seq![a, b], function),
    {
        let mut args: Vec<ResultId> = Vec::new();
        args.push(a);
        args.push(b);
        proof {
            assert(args@ =~= seq![a, b]);
        }
        self.new_gate_op(args, function)
    }

    /// Declare a gate with several results on the concatenation of two lists
    /// of arguments
    pub fn batch_gate<T>(
        &mut self,
        a: Vec<ResultId>,
        b: Vec<ResultId>,
        output_arity: usize,
        function: BatchGateFunction,
    ) -> (r: Vec<ResultHandle<T>>)
        requires
            old(self).wf(),
            output_arity >= 1,
            old(self)@.has_room(output_arity as int),
        ensures
            final(self).wf(),
            crate::fabric::result::ids_of(r@) == crate::fabric::result::range_ids(
                old(self)@.next_result_id,
                output_arity as int,
            ),
            r@.len() == output_arity,
            final(self)@ == old(self)@.with_batch_gate(a@ + b@, output_arity as int, function),
            final(self)@.advanced(old(self)@, output_arity as int, 1, 0),
    {
        let mut args = a;
        let mut rest = b;
        args.append(&mut rest);
        self.new_batch_gate_op(args, output_arity, function)
    }

    /// Exchange the payload that a network function derives from a list of
    /// results with the peer. Returns the id under which the peer's payload
    /// arrives.
    pub fn exchange_ids(&mut self, args: Vec<ResultId>, function: NetworkFunction) -> (r: ResultId)
        requires
            old(self).wf(),
            old(self)@.has_room(2),
        ensures
            final(self).wf(),
            r == old(self)@.exchanged_id(),
            final(self)@ == old(self)@.exchange(args@, function),
            final(self)@.advanced(old(self)@, 2, 1, 0),
    {
        if self.party_id() == crate::PARTY0 {
            self.new_network_op::<Vec<u8>>(args, function);
            self.receive_slot()
        } else {
            let id = self.receive_slot();
            self.new_network_op::<Vec<u8>>(args, function);
            id
        }
    }
}

} // verus!
