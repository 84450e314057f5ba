//! The executor: it ingests the operations of the graph, tracks the arguments
//! that are still in flight, and evaluates each operation once its arguments
//! are resident

use vstd::prelude::*;

use crate::buffer::GrowableBuffer;
use crate::fabric::evaluation::lemma_allocate_keeps;
use crate::fabric::evaluation::lemma_delivered_compose;
use crate::fabric::evaluation::lemma_effect_frame;
use crate::fabric::evaluation::lemma_evolves_transitive;
use crate::fabric::evaluation::lemma_first_value_single;
use crate::fabric::evaluation::lemma_fulfilled_compose;
use crate::fabric::evaluation::lemma_fulfilled_evolves;
use crate::fabric::evaluation::lemma_fulfilled_keeps;
use crate::fabric::evaluation::lemma_handled_len_bound;
use crate::fabric::evaluation::lemma_missing_after_fulfil;
use crate::fabric::evaluation::lemma_missing_finite;
use crate::fabric::evaluation::lemma_sent_after_send;
use crate::fabric::evaluation::lemma_sent_keeps;
use crate::fabric::evaluation::lemma_sound_after_fulfil;
use crate::fabric::evaluation::lemma_sound_frame;
use crate::fabric::evaluation::lemma_sound_keeps;
use crate::fabric::evaluation::lemma_failure_recorded;
use crate::fabric::evaluation::lemma_quiet_frame;
use crate::fabric::first_value;
use crate::fabric::handled_len;
use crate::fabric::output_id;
use crate::fabric::output_kind;
use crate::fabric::ExecutorMessage;
use crate::fabric::FabricInner;
use crate::fabric::FabricState;
use crate::fabric::MessageView;
use crate::fabric::Operation;
use crate::fabric::OperationId;
use crate::fabric::OperationType;
use crate::fabric::OperationView;
use crate::fabric::SlotKind;
use crate::fabric::gate::values_of;
use crate::fabric::result::OpResult;
use crate::fabric::result::ResultId;
use crate::fabric::result::ResultValue;
use crate::fabric::result::Value;
use crate::network::OutboundView;

verus! {

/// The executor's own records
pub struct Executor {
    /// The operations that wait for an argument, by their identifier
    operations: GrowableBuffer<Operation>,
    /// For each result, the operations that wait for it
    dependencies: GrowableBuffer<Vec<OperationId>>,
    /// The number of operations that have been taken off the execution queue
    ingested: usize,
}

/// How often a value occurs on a list
pub open spec fn occurrences(list: Seq<usize>, x: usize) -> nat
    decreases list.len(),
{
    if list.len() == 0 {
        0
    } else {
        occurrences(list.drop_last(), x) + if list.last() == x {
            1nat
        } else {
            0nat
        }
    }
}

/// Whether a result is awaited: it is not resident, or the operations that
/// wait for it have not been visited since it became so
pub open spec fn awaited(a: ResultId, resident: Set<int>, fresh: Seq<ResultId>) -> bool {
    !resident.contains(a as int) || fresh.contains(a)
}

/// The number of arguments on a list that are awaited, an argument that
/// occurs twice counted twice
pub open spec fn awaited_count(
    args: Seq<ResultId>,
    resident: Set<int>,
    fresh: Seq<ResultId>,
) -> nat
    decreases args.len(),
{
    if args.len() == 0 {
        0
    } else {
        awaited_count(args.drop_last(), resident, fresh) + if awaited(
            args.last(),
            resident,
            fresh,
        ) {
            1nat
        } else {
            0nat
        }
    }
}

/// A value put at the end of a list occurs once more
pub proof fn lemma_occurrences_push(list: Seq<usize>, k: usize, x: usize)
    ensures
        occurrences(list.push(k), x) == occurrences(list, x) + if k == x {
            1nat
        } else {
            0nat
        },
{
    assert(list.push(k).drop_last() =~= list);
}

/// The value at the head of a list occurs once less on the rest of it
pub proof fn lemma_occurrences_drop_first(list: Seq<usize>, x: usize)
    requires
        list.len() > 0,
    ensures
        occurrences(list, x) == occurrences(list.drop_first(), x) + if list[0] == x {
            1nat
        } else {
            0nat
        },
    decreases list.len(),
{
    if list.len() == 1 {
        assert(list.drop_first() =~= Seq::<usize>::empty());
        assert(list.drop_last() =~= Seq::<usize>::empty());
    } else {
        lemma_occurrences_drop_first(list.drop_last(), x);
        assert(list.drop_last().drop_first() =~= list.drop_first().drop_last());
    }
}

/// A value occurs on a list exactly if the list holds it
pub proof fn lemma_occurrences_contains(list: Seq<usize>, x: usize)
    ensures
        occurrences(list, x) > 0 <==> list.contains(x),
    decreases list.len(),
{
    if list.len() > 0 {
        let shorter = list.drop_last();
        lemma_occurrences_contains(shorter, x);
        if list.last() == x {
            assert(list[list.len() - 1] == x);
        }
        if shorter.contains(x) {
            let i = choose|i: int| 0 <= i < shorter.len() && shorter[i] == x;
            assert(list[i] == x);
        }
        if list.contains(x) && list.last() != x {
            let i = choose|i: int| 0 <= i < list.len() && list[i] == x;
            assert(shorter[i] == x);
        }
    }
}

/// The number of awaited arguments depends only on which of them are awaited
pub proof fn lemma_awaited_same(
    args: Seq<ResultId>,
    resident: Set<int>,
    fresh: Seq<ResultId>,
    resident2: Set<int>,
    fresh2: Seq<ResultId>,
)
    requires
        forall|j: int|
            0 <= j < args.len() ==> awaited(#[trigger] args[j], resident, fresh) == awaited(
                args[j],
                resident2,
                fresh2,
            ),
    ensures
        awaited_count(args, resident, fresh) == awaited_count(args, resident2, fresh2),
    decreases args.len(),
{
    if args.len() > 0 {
        let shorter = args.drop_last();
        assert forall|j: int| 0 <= j < shorter.len() implies awaited(
            #[trigger] shorter[j],
            resident,
            fresh,
        ) == awaited(shorter[j], resident2, fresh2) by {
            assert(shorter[j] == args[j]);
        }
        lemma_awaited_same(shorter, resident, fresh, resident2, fresh2);
        assert(args.last() == args[args.len() - 1]);
    }
}

/// Once the dependents of a resident result are to be visited, the result
/// is awaited no more: the count falls by the number of times that it occurs
pub proof fn lemma_awaited_settle(
    args: Seq<ResultId>,
    resident: Set<int>,
    fresh: Seq<ResultId>,
    id: ResultId,
)
    requires
        resident.contains(id as int),
        !fresh.contains(id),
    ensures
        awaited_count(args, resident, fresh.push(id)) == awaited_count(args, resident, fresh)
            + occurrences(args, id),
    decreases args.len(),
{
    if args.len() > 0 {
        let longer = fresh.push(id);
        let a = args.last();
        lemma_awaited_settle(args.drop_last(), resident, fresh, id);
        assert(longer[fresh.len() as int] == id);
        if fresh.contains(a) {
            let i = choose|i: int| 0 <= i < fresh.len() && fresh[i] == a;
            assert(longer[i] == a);
        }
        if longer.contains(a) && a != id {
            let i = choose|i: int| 0 <= i < longer.len() && longer[i] == a;
            assert(fresh[i] == a);
        }
    }
}

/// No argument is awaited exactly if the count is zero
pub proof fn lemma_awaited_none(args: Seq<ResultId>, resident: Set<int>, fresh: Seq<ResultId>)
    ensures
        awaited_count(args, resident, fresh) == 0 <==> forall|j: int|
            0 <= j < args.len() ==> !awaited(#[trigger] args[j], resident, fresh),
    decreases args.len(),
{
    if args.len() > 0 {
        let shorter = args.drop_last();
        lemma_awaited_none(shorter, resident, fresh);
        assert(args.last() == args[args.len() - 1]);
        if awaited_count(args, resident, fresh) == 0 {
            assert forall|j: int| 0 <= j < args.len() implies !awaited(
                #[trigger] args[j],
                resident,
                fresh,
            ) by {
                if j < shorter.len() {
                    assert(shorter[j] == args[j]);
                }
            }
        } else if awaited_count(shorter, resident, fresh) != 0 {
            let j = choose|j: int|
                0 <= j < shorter.len() && awaited(#[trigger] shorter[j], resident, fresh);
            assert(shorter[j] == args[j]);
        }
    }
}

/// The values of the arguments of an operation, if all of them are resident
pub fn collect_inputs(fabric: &FabricInner, op: &Operation) -> (r: Option<Vec<ResultValue>>)
    ensures
        r is Some <==> fabric@.args_complete(op@),
        r matches Some(inputs) ==> values_of(inputs@) == fabric@.arg_values(op@),
{
    let mut inputs: Vec<ResultValue> = Vec::with_capacity(op.args.len());
    let mut j: usize = 0;
    while j < op.args.len()
        invariant
            j <= op.args@.len(),
            inputs@.len() == j,
            forall|i: int|
                0 <= i < j ==> fabric@.results.dom().contains(#[trigger] op.args@[i] as int)
                    && inputs@[i]@ == fabric@.results[op.args@[i] as int],
        decreases op.args@.len() - j,
    {
        match fabric.result(op.args[j]) {
            Some(value) => {
                inputs.push(value);
            },
            None => {
                assert(!fabric@.results.dom().contains(op@.args[j as int] as int));
                return None;
            },
        }
        j += 1;
    }
    proof {
        assert(values_of(inputs@) =~= fabric@.arg_values(op@));
    }
    Some(inputs)
}

impl Executor {
    /// Whether an operation waits for an argument
    pub closed spec fn parked(&self, k: int) -> bool {
        self.operations.entry(k) is Some
    }

    /// The operations that are recorded as waiting for a result
    pub closed spec fn waiting_on(&self, id: int) -> Seq<OperationId> {
        match self.dependencies.entry(id) {
            Some(list) => list@,
            None => Seq::empty(),
        }
    }

    /// The number of operations that the executor has taken off the queue
    pub closed spec fn ingested_count(&self) -> int {
        self.ingested as int
    }


    /// The executor's records agree with the state of the fabric, given the
    /// results whose dependents are still to be visited (`fresh`), the
    /// operation whose effect is being worked (`limbo`), and the dependents of
    /// the result at hand that are still to be visited (`rest`)
    #[verifier::opaque]
    pub closed spec fn inv(
        &self,
        s: FabricState,
        fresh: Seq<ResultId>,
        limbo: int,
        rest: Seq<OperationId>,
    ) -> bool {
        &&& self.ingested <= s.ops.len()
        &&& s.queued_ops() == s.ops.subrange(self.ingested as int, s.ops.len() as int)
        &&& forall|k: int| #[trigger]
            self.parked(k) ==> 0 <= k < self.ingested && self.operations.entry(
                k,
            ).unwrap()@.declared() == s.ops[k]
        &&& forall|id: int|
            0 <= id < s.kinds.len() && #[trigger] s.results.dom().contains(id) ==> (
            s.kinds[id] matches SlotKind::Gate { op, index } ==> op < self.ingested
                && !self.parked(op as int))
        &&& forall|k: int|
            0 <= k < self.ingested && k != limbo && !(#[trigger] self.parked(k))
                ==> s.args_complete(s.ops[k]) && s.effected(s.ops[k])
        &&& forall|k: int| #[trigger]
            self.parked(k) && FabricState::causal(s.ops[k]) && s.args_complete(s.ops[k])
                ==> rest.contains(k as usize) || exists|j: int|
                0 <= j < s.ops[k].args.len() && fresh.contains(#[trigger] s.ops[k].args[j])
        &&& forall|k: int, j: int|
            #![trigger self.parked(k), s.ops[k].args[j]]
            self.parked(k) && 0 <= j < s.ops[k].args.len() && s.ops[k].args[j] < usize::MAX && (
            !s.results.dom().contains(s.ops[k].args[j] as int) || fresh.contains(
                s.ops[k].args[j],
            )) ==> self.waiting_on(s.ops[k].args[j] as int).contains(k as usize)
        &&& s.next_result_id <= usize::MAX
        &&& fresh.no_duplicates()
        &&& forall|i: int|
            0 <= i < fresh.len() ==> s.results.dom().contains(#[trigger] fresh[i] as int)
    }

    /// The number of arguments that a waiting operation is recorded to await
    pub closed spec fn awaits(&self, k: int) -> nat {
        match self.operations.entry(k) {
            Some(op) => op.inflight_args as nat,
            None => 0,
        }
    }

    /// The counts of the executor agree with its records: a waiting operation
    /// awaits as many arguments as are awaited among its own, together with
    /// the visits that it is still to get from `rest`; and it is recorded with
    /// each awaited result as often as the result occurs among its arguments
    #[verifier::opaque]
    pub closed spec fn counted(
        &self,
        s: FabricState,
        fresh: Seq<ResultId>,
        rest: Seq<OperationId>,
    ) -> bool {
        &&& forall|k: int| #[trigger] self.parked(k) ==> 0 <= k < self.ingested
        &&& forall|a: int, i: int|
            0 <= i < self.waiting_on(a).len() ==> (#[trigger] self.waiting_on(a)[i])
                < self.ingested
        &&& forall|k: int| #[trigger]
            self.parked(k) && FabricState::causal(s.ops[k]) ==> self.awaits(k) == awaited_count(
                s.ops[k].args,
                s.results.dom(),
                fresh,
            ) + occurrences(rest, k as usize)
        &&& forall|k: int, a: int|
            #![trigger self.parked(k), self.waiting_on(a)]
            self.parked(k) && FabricState::causal(s.ops[k]) && 0 <= a < usize::MAX && awaited(
                a as usize,
                s.results.dom(),
                fresh,
            ) ==> occurrences(self.waiting_on(a), k as usize) == occurrences(
                s.ops[k].args,
                a as usize,
            )
    }

    /// Whether an operation has not been evaluated: it is still on the queue,
    /// it waits for an argument, or it is the one being worked
    pub closed spec fn outstanding(&self, k: int, limbo: int) -> bool {
        k >= self.ingested || self.parked(k) || k == limbo
    }

    /// No message to the peer carries the tag of a network operation that has
    /// not been evaluated
    #[verifier::opaque]
    pub closed spec fn unsent(&self, s: FabricState, limbo: int) -> bool {
        forall|k: int|
            0 <= k < s.ops.len() && self.outstanding(k, limbo) && (#[trigger] s.ops[k]).op_type
                is Network ==> s.unsent(s.ops[k].result_id as int)
    }

    /// The executor's records agree with the state of the fabric, and nothing
    /// is under way
    pub open spec fn wf(&self, s: FabricState) -> bool {
        &&& self.inv(s, Seq::empty(), -1, Seq::empty())
        &&& self.counted(s, Seq::empty(), Seq::empty())
        &&& self.unsent(s, -1)
    }

    /// A new executor, with room for `size_hint` operations
    pub fn new(size_hint: usize) -> (r: Self)
        ensures
            r.ingested_count() == 0,
            forall|k: int| !r.parked(k),
            forall|a: int| r.waiting_on(a).len() == 0,
    {
        Executor {
            operations: GrowableBuffer::new(size_hint),
            dependencies: GrowableBuffer::new(size_hint),
            ingested: 0,
        }
    }

    /// A new executor agrees with a fabric on which nothing has been declared
    pub proof fn lemma_new_wf(&self, s: FabricState)
        requires
            self.ingested_count() == 0,
            forall|k: int| !self.parked(k),
            forall|a: int| self.waiting_on(a).len() == 0,
            s.ops.len() == 0,
            s.queue.len() == 0,
            s.next_result_id <= usize::MAX,
            forall|id: int|
                0 <= id < s.kinds.len() ==> !(#[trigger] s.kinds[id] is Gate),
        ensures
            self.wf(s),
    {
        reveal(Executor::inv);
        reveal(Executor::counted);
        reveal(Executor::unsent);
        assert(s.queued_ops() =~= s.ops.subrange(0, 0));
    }

    /// The operations that the executor has taken in are among the declared
    /// ones
    proof fn lemma_inv_bounds(
        &self,
        s: FabricState,
        fresh: Seq<ResultId>,
        limbo: int,
        rest: Seq<OperationId>,
    )
        requires
            self.inv(s, fresh, limbo, rest),
        ensures
            self.ingested <= s.ops.len(),
            s.next_result_id <= usize::MAX,
    {
        reveal(Executor::inv);
    }

    /// Fulfilling a result that was not resident, and putting it on the list of
    /// results whose dependents are to be visited, keeps the records in
    /// agreement
    proof fn lemma_inv_after_fulfil(
        &self,
        s: FabricState,
        fresh: Seq<ResultId>,
        limbo: int,
        rest: Seq<OperationId>,
        id: ResultId,
        value: Value,
    )
        requires
            self.inv(s, fresh, limbo, rest),
            id < s.kinds.len(),
            !s.results.dom().contains(id as int),
            s.kinds[id as int] matches SlotKind::Gate { op, index } ==> op < self.ingested
                && !self.parked(op as int),
        ensures
            self.inv(s.fulfilled(id as int, value), fresh.push(id), limbo, rest),
    {
        reveal(Executor::inv);
        let t = s.fulfilled(id as int, value);
        let more = fresh.push(id);
        assert(t.queued_ops() == s.queued_ops());
        assert forall|k: int|
            0 <= k < self.ingested && k != limbo && !(#[trigger] self.parked(
                k,
            )) implies t.args_complete(t.ops[k]) && t.effected(t.ops[k]) by {
            lemma_fulfilled_keeps(s, id as int, value, s.ops[k]);
        }
        assert forall|k: int| #[trigger]
            self.parked(k) && FabricState::causal(t.ops[k]) && t.args_complete(
                t.ops[k],
            ) implies rest.contains(k as usize) || exists|j: int|
            0 <= j < t.ops[k].args.len() && more.contains(#[trigger] t.ops[k].args[j]) by {
            let op = s.ops[k];
            if s.args_complete(op) {
                if !rest.contains(k as usize) {
                    let j = choose|j: int|
                        0 <= j < op.args.len() && fresh.contains(#[trigger] op.args[j]);
                    let i = choose|i: int| 0 <= i < fresh.len() && fresh[i] == op.args[j];
                    assert(more[i] == op.args[j]);
                }
            } else {
                let j = choose|j: int|
                    0 <= j < op.args.len() && !s.results.dom().contains(
                        #[trigger] op.args[j] as int,
                    );
                assert(t.results.dom().contains(op.args[j] as int));
                assert(op.args[j] == id);
                assert(more[fresh.len() as int] == id);
            }
        }
        assert forall|k: int, j: int|
            #![trigger self.parked(k), t.ops[k].args[j]]
            self.parked(k) && 0 <= j < t.ops[k].args.len() && t.ops[k].args[j] < usize::MAX && (
            !t.results.dom().contains(t.ops[k].args[j] as int) || more.contains(
                t.ops[k].args[j],
            )) implies self.waiting_on(t.ops[k].args[j] as int).contains(k as usize) by {
            let a = s.ops[k].args[j];
            if a != id && more.contains(a) {
                let i = choose|i: int| 0 <= i < more.len() && more[i] == a;
                assert(fresh[i] == a);
            }
        }
        assert forall|i: int, j: int| 0 <= i < more.len() && 0 <= j < more.len() && i != j implies more[i]
            != more[j] by {
            if i < fresh.len() {
                assert(s.results.dom().contains(fresh[i] as int));
            }
            if j < fresh.len() {
                assert(s.results.dom().contains(fresh[j] as int));
            }
        }
        assert forall|i: int| 0 <= i < more.len() implies t.results.dom().contains(
            #[trigger] more[i] as int,
        ) by {
            if i < fresh.len() {
                assert(s.results.dom().contains(fresh[i] as int));
            }
        }
    }

    /// Putting an operation on the list of failed operations keeps the
    /// records in agreement
    proof fn lemma_inv_after_failure(
        &self,
        s: FabricState,
        fresh: Seq<ResultId>,
        limbo: int,
        rest: Seq<OperationId>,
        op_id: OperationId,
    )
        requires
            self.inv(s, fresh, limbo, rest),
            self.counted(s, fresh, rest),
        ensures
            self.inv(s.with_failure(op_id), fresh, limbo, rest),
            self.counted(s.with_failure(op_id), fresh, rest),
    {
        reveal(Executor::inv);
        reveal(Executor::counted);
        let t = s.with_failure(op_id);
        assert(t.queued_ops() == s.queued_ops());
        assert forall|k: int|
            0 <= k < self.ingested && k != limbo && !(#[trigger] self.parked(
                k,
            )) implies t.args_complete(t.ops[k]) && t.effected(t.ops[k]) by {
            lemma_failure_recorded(s, op_id, s.ops[k]);
        }
        assert forall|k: int| #[trigger]
            self.parked(k) && FabricState::causal(t.ops[k]) && t.args_complete(
                t.ops[k],
            ) implies rest.contains(k as usize) || exists|j: int|
            0 <= j < t.ops[k].args.len() && fresh.contains(#[trigger] t.ops[k].args[j]) by {
            lemma_failure_recorded(s, op_id, s.ops[k]);
        }
    }

    /// Handing a payload to the outbound queue keeps the records in agreement
    proof fn lemma_inv_after_sent(
        &self,
        s: FabricState,
        fresh: Seq<ResultId>,
        limbo: int,
        rest: Seq<OperationId>,
        id: ResultId,
        payload: Value,
    )
        requires
            self.inv(s, fresh, limbo, rest),
        ensures
            self.inv(s.sent(id, payload), fresh, limbo, rest),
    {
        reveal(Executor::inv);
        let t = s.sent(id, payload);
        assert(t.queued_ops() == s.queued_ops());
        assert forall|k: int|
            0 <= k < self.ingested && k != limbo && !(#[trigger] self.parked(
                k,
            )) implies t.args_complete(t.ops[k]) && t.effected(t.ops[k]) by {
            lemma_sent_keeps(s, id, payload, s.ops[k]);
        }
        assert forall|k: int| #[trigger]
            self.parked(k) && FabricState::causal(t.ops[k]) && t.args_complete(
                t.ops[k],
            ) implies rest.contains(k as usize) || exists|j: int|
            0 <= j < t.ops[k].args.len() && fresh.contains(#[trigger] t.ops[k].args[j]) by {
            lemma_sent_keeps(s, id, payload, s.ops[k]);
        }
    }

    /// Once the operation that was being worked has had its effect, nothing is
    /// under way
    proof fn lemma_inv_settle(
        &self,
        s: FabricState,
        fresh: Seq<ResultId>,
        limbo: int,
        rest: Seq<OperationId>,
    )
        requires
            self.inv(s, fresh, limbo, rest),
            0 <= limbo < self.ingested && !self.parked(limbo) ==> s.args_complete(s.ops[limbo])
                && s.effected(s.ops[limbo]),
        ensures
            self.inv(s, fresh, -1, rest),
    {
        reveal(Executor::inv);
    }

    /// Work the effect of an operation whose arguments are resident: fulfil
    /// the results of a gate, or hand the payload of a network operation to the
    /// outbound queue. Each result that becomes resident is put on `fresh`.
    fn execute_operation(
        &self,
        fabric: &mut FabricInner,
        op: &Operation,
        inputs: Vec<ResultValue>,
        fresh: &mut Vec<ResultId>,
        Ghost(rest): Ghost<Seq<OperationId>>,
    )
        requires
            old(fabric).wf(),
            old(fabric)@.results_sound(),
            self.inv(old(fabric)@, old(fresh)@, op.id as int, rest),
            self.counted(old(fabric)@, old(fresh)@, rest),
            self.unsent(old(fabric)@, op.id as int),
            op.id < self.ingested,
            !self.parked(op.id as int),
            op@.declared() == old(fabric)@.ops[op.id as int],
            old(fabric)@.args_complete(op@),
            values_of(inputs@) == old(fabric)@.arg_values(op@),
            !(op.op_type is Network) ==> forall|j: int|
                0 <= j < op.output_arity ==> !old(fabric)@.results.dom().contains(
                    #[trigger] output_id(op@, j),
                ),
        ensures
            final(fabric).wf(),
            final(fabric)@.results_sound(),
            final(fabric)@.evolves_from(old(fabric)@),
            final(fabric)@.queue == old(fabric)@.queue,
            final(fabric)@.early == old(fabric)@.early,
            final(fabric)@.stopped == old(fabric)@.stopped,
            self.inv(final(fabric)@, final(fresh)@, -1, rest),
            self.counted(final(fabric)@, final(fresh)@, rest),
            self.unsent(final(fabric)@, -1),
            final(fresh)@.len() + final(fabric)@.missing().len() == old(fresh)@.len() + old(
                fabric,
            )@.missing().len(),
            old(fabric)@.missing().finite(),
            final(fabric)@.missing().finite(),
            final(fabric)@.fulfilled_from(old(fabric)@, Seq::empty()),
    {
        let ghost s0 = fabric@;
        let ghost k = op.id as int;
        let ghost decl = s0.ops[k];
        proof {
            fabric.lemma_wf_graph();
            self.lemma_inv_bounds(s0, fresh@, k, rest);
            lemma_missing_finite(s0);
            lemma_quiet_frame(s0, s0);
            assert(FabricState::op_wf(s0.ops[k], k, s0.next_result_id));
        }
        match op.op_type {
            OperationType::Gate { function } => {
                match function.eval(&inputs) {
                    Some(value) => {
                        proof {
                            assert(output_id(op@, 0) == op.result_id);
                            assert(s0.kinds[output_id(decl, 0)] == output_kind(
                                k as usize,
                                decl.op_type,
                                0,
                            ));
                            lemma_missing_after_fulfil(s0, op.result_id as int, value@);
                            lemma_sound_after_fulfil(s0, op.result_id as int, value@);
                            self.lemma_inv_after_fulfil(
                                s0,
                                fresh@,
                                k,
                                rest,
                                op.result_id,
                                value@,
                            );
                            self.lemma_counted_after_fulfil(
                                s0,
                                fresh@,
                                rest,
                                op.result_id,
                                value@,
                            );
                            lemma_fulfilled_keeps(s0, op.result_id as int, value@, decl);
                            lemma_fulfilled_evolves(s0, op.result_id as int, value@);
                            self.lemma_unsent_state(
                                s0,
                                s0.fulfilled(op.result_id as int, value@),
                                k,
                            );
                        }
                        fabric.fulfil(op.result_id, value);
                        fresh.push(op.result_id);
                        proof {
                            let t = fabric@;
                            assert(t.effected(decl)) by {
                                assert forall|j: int|
                                    0 <= j < decl.output_arity implies (
                                match FabricState::gate_output(decl, t.arg_values(decl), j) {
                                    Some(v) => t.results.dom().contains(
                                        #[trigger] output_id(decl, j),
                                    ) && t.results[output_id(decl, j)] == v,
                                    None => true,
                                }) by {
                                    assert(j == 0);
                                }
                            }
                            self.lemma_inv_settle(t, fresh@, k, rest);
                            self.lemma_unsent_settle(t, k);
                        }
                    },
                    None => {
                        // The function fails on its arguments: an error of the
                        // program, which is put on record
                        proof {
                            assert(s0.arg_values(decl) =~= s0.arg_values(op@));
                            assert(s0.failure(op.id));
                            self.lemma_inv_after_failure(s0, fresh@, k, rest, op.id);
                            self.lemma_unsent_state(s0, s0.with_failure(op.id), k);
                            self.lemma_unsent_settle(s0.with_failure(op.id), k);
                            lemma_failure_recorded(s0, op.id, decl);
                            lemma_sound_keeps(s0, s0.with_failure(op.id));
                        }
                        fabric.record_failure(op.id);
                        proof {
                            assert(fabric@.missing() =~= s0.missing());
                            self.lemma_inv_settle(fabric@, fresh@, k, rest);
                        }
                    },
                }
            },
            OperationType::GateBatch { function } => {
                match function.eval(&inputs, op.output_arity) {
                    Some(outputs) => {
                        let mut j: usize = 0;
                        let ghost expected = function.eval_spec(
                            s0.arg_values(decl),
                            decl.output_arity as int,
                        ).unwrap();
                        proof {
                            assert(s0.arg_values(decl) =~= s0.arg_values(op@));
                            assert(values_of(outputs@).len() == outputs@.len());
                            assert forall|i: int| 0 <= i < op.output_arity implies !s0.results.dom().contains(
                                #[trigger] output_id(decl, i),
                            ) by {
                                assert(!s0.results.dom().contains(output_id(op@, i)));
                            }
                        }
                        while j < op.output_arity
                            invariant
                                j <= op.output_arity,
                                fabric.wf(),
                                fabric@.results_sound(),
                                fabric@.evolves_from(s0),
                                fabric@.queue == s0.queue,
                                fabric@.early == s0.early,
                                fabric@.stopped == s0.stopped,
                                fabric@.missing().finite(),
                                fabric@.fulfilled_from(s0, Seq::empty()),
                                self.inv(fabric@, fresh@, k, rest),
                                self.counted(fabric@, fresh@, rest),
                                self.unsent(fabric@, k),
                                fresh@.len() + fabric@.missing().len() == old(fresh)@.len()
                                    + s0.missing().len(),
                                k == op.id,
                                k < s0.ops.len(),
                                op.id < self.ingested,
                                !self.parked(k),
                                decl == s0.ops[k],
                                op@.declared() == decl,
                                decl.op_type == (OperationType::GateBatch { function }),
                                FabricState::op_wf(decl, k, s0.next_result_id),
                                s0.graph_wf(),
                                fabric@.args_complete(decl),
                                fabric@.arg_values(decl) == s0.arg_values(decl),
                                outputs@.len() == op.output_arity,
                                values_of(outputs@) == expected,
                                function.eval_spec(s0.arg_values(decl), decl.output_arity as int)
                                    == Some(expected),
                                forall|i: int|
                                    j <= i < op.output_arity ==> !fabric@.results.dom().contains(
                                        #[trigger] output_id(decl, i),
                                    ),
                                forall|i: int|
                                    0 <= i < j ==> fabric@.results.dom().contains(
                                        #[trigger] output_id(decl, i),
                                    ) && fabric@.results[output_id(decl, i)] == expected[i],
                            decreases op.output_arity - j,
                        {
                            let id = op.result_id + j;
                            let value = outputs[j].clone();
                            let ghost s1 = fabric@;
                            proof {
                                assert(output_id(decl, j as int) == id);
                                assert(s1.kinds[output_id(s1.ops[k], j as int)] == output_kind(
                                    k as usize,
                                    decl.op_type,
                                    j as int,
                                ));
                                assert(values_of(outputs@)[j as int] == value@);
                                lemma_missing_after_fulfil(s1, id as int, value@);
                                lemma_sound_after_fulfil(s1, id as int, value@);
                                self.lemma_inv_after_fulfil(s1, fresh@, k, rest, id, value@);
                                self.lemma_counted_after_fulfil(s1, fresh@, rest, id, value@);
                                lemma_fulfilled_keeps(s1, id as int, value@, decl);
                                lemma_fulfilled_evolves(s1, id as int, value@);
                                self.lemma_unsent_state(s1, s1.fulfilled(id as int, value@), k);
                            }
                            fabric.fulfil(id, value);
                            fresh.push(id);
                            proof {
                                let t = fabric@;
                                lemma_evolves_transitive(s0, s1, t);
                                assert forall|i: int| 0 <= i < j + 1 implies t.results.dom().contains(
                                    #[trigger] output_id(decl, i),
                                ) && t.results[output_id(decl, i)] == expected[i] by {
                                    if i < j {
                                        assert(s1.results.dom().contains(output_id(decl, i)));
                                    }
                                }
                                assert forall|i: int|
                                    j + 1 <= i < op.output_arity implies !t.results.dom().contains(
                                    #[trigger] output_id(decl, i),
                                ) by {
                                    assert(!s1.results.dom().contains(output_id(decl, i)));
                                }
                            }
                            j += 1;
                        }
                        proof {
                            let t = fabric@;
                            assert(t.effected(decl)) by {
                                assert forall|i: int|
                                    0 <= i < decl.output_arity implies (
                                match FabricState::gate_output(decl, t.arg_values(decl), i) {
                                    Some(v) => t.results.dom().contains(
                                        #[trigger] output_id(decl, i),
                                    ) && t.results[output_id(decl, i)] == v,
                                    None => true,
                                }) by {
                                    assert(t.results.dom().contains(output_id(decl, i)));
                                }
                            }
                            self.lemma_inv_settle(t, fresh@, k, rest);
                            self.lemma_unsent_settle(t, k);
                        }
                    },
                    None => {
                        // The function fails on its arguments: an error of the
                        // program, which is put on record
                        proof {
                            assert(s0.arg_values(decl) =~= s0.arg_values(op@));
                            assert(s0.failure(op.id));
                            self.lemma_inv_after_failure(s0, fresh@, k, rest, op.id);
                            self.lemma_unsent_state(s0, s0.with_failure(op.id), k);
                            self.lemma_unsent_settle(s0.with_failure(op.id), k);
                            lemma_failure_recorded(s0, op.id, decl);
                            lemma_sound_keeps(s0, s0.with_failure(op.id));
                        }
                        fabric.record_failure(op.id);
                        proof {
                            assert(fabric@.missing() =~= s0.missing());
                            self.lemma_inv_settle(fabric@, fresh@, k, rest);
                        }
                    },
                }
            },
            OperationType::Network { function } => {
                match function.eval(&inputs) {
                    Some(payload) => {
                        proof {
                            self.lemma_inv_after_sent(
                                s0,
                                fresh@,
                                k,
                                rest,
                                op.result_id,
                                payload@,
                            );
                            self.lemma_counted_after_sent(
                                s0,
                                fresh@,
                                rest,
                                op.result_id,
                                payload@,
                            );
                            lemma_sent_keeps(s0, op.result_id, payload@, decl);
                            self.lemma_unsent_after_sent(s0, k, payload@);
                        }
                        fabric.send_payload(op.result_id, payload);
                        proof {
                            let t = fabric@;
                            assert(s0.arg_values(s0.ops[k]) =~= s0.arg_values(op@));
                            lemma_sent_after_send(s0, k, payload@);
                            let m = OutboundView { result_id: decl.result_id, payload: payload@ };
                            assert(t.sent_log[s0.sent_log.len() as int] == m);
                            assert(t.effected(decl));
                            assert(t.missing() =~= s0.missing());
                            assert(t.results_sound()) by {
                                assert forall|i: int|
                                    0 <= i < t.kinds.len() && #[trigger] t.results.dom().contains(
                                        i,
                                    ) implies (match t.kinds[i] {
                                    SlotKind::Gate { op, index } => {
                                        &&& t.args_complete(t.ops[op as int])
                                        &&& FabricState::gate_output(
                                            t.ops[op as int],
                                            t.arg_values(t.ops[op as int]),
                                            index as int,
                                        ) == Some(t.results[i])
                                    },
                                    _ => true,
                                }) by {
                                    match t.kinds[i] {
                                        SlotKind::Gate { op, index } => {
                                            lemma_sent_keeps(
                                                s0,
                                                decl.result_id,
                                                payload@,
                                                s0.ops[op as int],
                                            );
                                        },
                                        _ => {},
                                    }
                                }
                            }
                            self.lemma_inv_settle(t, fresh@, k, rest);
                        }
                    },
                    None => {
                        // The function fails on its arguments: an error of the
                        // program, which is put on record
                        proof {
                            assert(s0.arg_values(decl) =~= s0.arg_values(op@));
                            assert(s0.failure(op.id));
                            self.lemma_inv_after_failure(s0, fresh@, k, rest, op.id);
                            self.lemma_unsent_state(s0, s0.with_failure(op.id), k);
                            self.lemma_unsent_settle(s0.with_failure(op.id), k);
                            lemma_failure_recorded(s0, op.id, decl);
                            lemma_sound_keeps(s0, s0.with_failure(op.id));
                        }
                        fabric.record_failure(op.id);
                        proof {
                            assert(fabric@.missing() =~= s0.missing());
                            self.lemma_inv_settle(fabric@, fresh@, k, rest);
                        }
                    },
                }
            },
        }
    }

    /// Taking a result off the list of results to visit, together with the
    /// operations recorded as waiting for it, leaves those operations to visit
    proof fn lemma_inv_after_pop(
        before: Executor,
        after: Executor,
        s: FabricState,
        fresh: Seq<ResultId>,
        id: ResultId,
        list: Seq<OperationId>,
    )
        requires
            before.inv(s, fresh.push(id), -1, Seq::empty()),
            s.graph_wf(),
            after.operations == before.operations,
            after.ingested == before.ingested,
            list == before.waiting_on(id as int),
            after.dependencies.entry(id as int) is None,
            after.dependencies.same_except(&before.dependencies, id as int),
        ensures
            after.inv(s, fresh, -1, list),
            s.results.dom().contains(id as int),
            !fresh.contains(id),
            id < usize::MAX,
    {
        reveal(Executor::inv);
        let longer = fresh.push(id);
        assert(longer[fresh.len() as int] == id);
        assert(s.results.dom().contains(id as int));
        assert forall|i: int| 0 <= i < fresh.len() implies fresh[i] != id && s.results.dom().contains(
            #[trigger] fresh[i] as int,
        ) by {
            assert(longer[i] == fresh[i]);
        }
        assert forall|k: int| #[trigger] after.parked(k) implies before.parked(k) by {}
        assert forall|k: int|
            0 <= k < after.ingested && k != -1 && !(#[trigger] after.parked(
                k,
            )) implies s.args_complete(s.ops[k]) && s.effected(s.ops[k]) by {
            assert(!before.parked(k));
        }
        assert forall|k: int| #[trigger]
            after.parked(k) && FabricState::causal(s.ops[k]) && s.args_complete(
                s.ops[k],
            ) implies list.contains(k as usize) || exists|j: int|
            0 <= j < s.ops[k].args.len() && fresh.contains(#[trigger] s.ops[k].args[j]) by {
            assert(before.parked(k));
            let j = choose|j: int|
                0 <= j < s.ops[k].args.len() && longer.contains(#[trigger] s.ops[k].args[j]);
            let a = s.ops[k].args[j];
            if a == id {
                assert(before.waiting_on(a as int).contains(k as usize));
            } else {
                let i = choose|i: int| 0 <= i < longer.len() && longer[i] == a;
                assert(fresh[i] == a);
            }
        }
        assert forall|k: int, j: int|
            #![trigger after.parked(k), s.ops[k].args[j]]
            after.parked(k) && 0 <= j < s.ops[k].args.len() && s.ops[k].args[j] < usize::MAX && (
            !s.results.dom().contains(s.ops[k].args[j] as int) || fresh.contains(
                s.ops[k].args[j],
            )) implies after.waiting_on(s.ops[k].args[j] as int).contains(k as usize) by {
            assert(before.parked(k));
            let a = s.ops[k].args[j];
            if fresh.contains(a) {
                let i = choose|i: int| 0 <= i < fresh.len() && fresh[i] == a;
                assert(longer[i] == a);
            }
            assert(a != id);
            assert(after.dependencies.entry(a as int) == before.dependencies.entry(a as int));
        }
        assert forall|i: int, j: int|
            0 <= i < fresh.len() && 0 <= j < fresh.len() && i != j implies fresh[i] != fresh[j] by {
            assert(longer[i] == fresh[i]);
            assert(longer[j] == fresh[j]);
        }
    }

    /// An operation that does not wait for an argument need not be visited
    proof fn lemma_inv_skip(&self, s: FabricState, fresh: Seq<ResultId>, rest: Seq<OperationId>)
        requires
            self.inv(s, fresh, -1, rest),
            rest.len() > 0,
            !self.parked(rest[0] as int),
        ensures
            self.inv(s, fresh, -1, rest.drop_first()),
    {
        reveal(Executor::inv);
        let shorter = rest.drop_first();
        assert forall|k: int| #[trigger]
            self.parked(k) && FabricState::causal(s.ops[k]) && s.args_complete(
                s.ops[k],
            ) implies shorter.contains(k as usize) || exists|j: int|
            0 <= j < s.ops[k].args.len() && fresh.contains(#[trigger] s.ops[k].args[j]) by {
            if rest.contains(k as usize) {
                let i = choose|i: int| 0 <= i < rest.len() && rest[i] == k as usize;
                assert(i != 0);
                assert(shorter[i - 1] == k as usize);
            }
        }
    }

    /// Taking an operation out of the waiting ones leaves it as the one being
    /// worked
    proof fn lemma_inv_take(
        before: Executor,
        after: Executor,
        s: FabricState,
        fresh: Seq<ResultId>,
        rest: Seq<OperationId>,
    )
        requires
            before.inv(s, fresh, -1, rest),
            s.graph_wf(),
            rest.len() > 0,
            before.parked(rest[0] as int),
            after.dependencies == before.dependencies,
            after.ingested == before.ingested,
            after.operations.entry(rest[0] as int) is None,
            after.operations.same_except(&before.operations, rest[0] as int),
        ensures
            after.inv(s, fresh, rest[0] as int, rest.drop_first()),
            rest[0] < before.ingested,
            !after.parked(rest[0] as int),
            before.operations.entry(rest[0] as int).unwrap()@.declared() == s.ops[rest[0] as int],
            !(s.ops[rest[0] as int].op_type is Network) ==> forall|j: int|
                0 <= j < s.ops[rest[0] as int].output_arity ==> !s.results.dom().contains(
                    #[trigger] output_id(s.ops[rest[0] as int], j),
                ),
    {
        reveal(Executor::inv);
        let k0 = rest[0] as int;
        let shorter = rest.drop_first();
        assert forall|k: int| #[trigger] after.parked(k) implies before.parked(k) && k != k0 by {
            assert(after.operations.entry(k) == before.operations.entry(k) || k == k0);
        }
        assert forall|k: int| k != k0 implies after.parked(k) == before.parked(k) by {
            assert(after.operations.entry(k) == before.operations.entry(k));
        }
        assert forall|k: int| #[trigger] after.parked(k) implies 0 <= k < after.ingested
            && after.operations.entry(k).unwrap()@.declared() == s.ops[k] by {
            assert(before.parked(k));
            assert(after.operations.entry(k) == before.operations.entry(k));
        }
        assert forall|id: int|
            0 <= id < s.kinds.len() && #[trigger] s.results.dom().contains(id) implies (
        s.kinds[id] matches SlotKind::Gate { op, index } ==> op < after.ingested && !after.parked(
            op as int,
        )) by {
            match s.kinds[id] {
                SlotKind::Gate { op, index } => {
                    assert(!before.parked(op as int));
                },
                _ => {},
            }
        }
        assert forall|k: int|
            0 <= k < after.ingested && k != k0 && !(#[trigger] after.parked(
                k,
            )) implies s.args_complete(s.ops[k]) && s.effected(s.ops[k]) by {
            assert(!before.parked(k));
        }
        assert forall|k: int| #[trigger]
            after.parked(k) && FabricState::causal(s.ops[k]) && s.args_complete(
                s.ops[k],
            ) implies shorter.contains(k as usize) || exists|j: int|
            0 <= j < s.ops[k].args.len() && fresh.contains(#[trigger] s.ops[k].args[j]) by {
            assert(before.parked(k));
            if rest.contains(k as usize) {
                let i = choose|i: int| 0 <= i < rest.len() && rest[i] == k as usize;
                assert(i != 0);
                assert(shorter[i - 1] == k as usize);
            }
        }
        assert forall|k: int, j: int|
            #![trigger after.parked(k), s.ops[k].args[j]]
            after.parked(k) && 0 <= j < s.ops[k].args.len() && s.ops[k].args[j] < usize::MAX && (
            !s.results.dom().contains(s.ops[k].args[j] as int) || fresh.contains(
                s.ops[k].args[j],
            )) implies after.waiting_on(s.ops[k].args[j] as int).contains(k as usize) by {
            assert(before.parked(k));
        }
        if !(s.ops[k0].op_type is Network) {
            assert forall|j: int| 0 <= j < s.ops[k0].output_arity implies !s.results.dom().contains(
                #[trigger] output_id(s.ops[k0], j),
            ) by {
                let id = output_id(s.ops[k0], j);
                assert(s.kinds[id] == output_kind(k0 as usize, s.ops[k0].op_type, j));
                assert(FabricState::op_wf(s.ops[k0], k0, s.next_result_id));
                if s.results.dom().contains(id) {
                    assert(!before.parked(k0));
                }
            }
        }
    }

    /// Putting an operation that still waits for an argument back among the
    /// waiting ones leaves nothing under way
    proof fn lemma_inv_put_back(
        before: Executor,
        after: Executor,
        s: FabricState,
        fresh: Seq<ResultId>,
        rest: Seq<OperationId>,
        op: OperationView,
    )
        requires
            before.inv(s, fresh, -1, rest),
            rest.len() > 0,
            before.parked(rest[0] as int),
            FabricState::causal(s.ops[rest[0] as int]) && s.args_complete(s.ops[rest[0] as int])
                ==> rest.drop_first().contains(rest[0]) || exists|j: int|
                0 <= j < s.ops[rest[0] as int].args.len() && fresh.contains(
                    #[trigger] s.ops[rest[0] as int].args[j],
                ),
            op.declared() == s.ops[rest[0] as int],
            after.dependencies == before.dependencies,
            after.ingested == before.ingested,
            after.operations.entry(rest[0] as int) matches Some(o) && o@ == op,
            after.operations.same_except(&before.operations, rest[0] as int),
        ensures
            after.inv(s, fresh, -1, rest.drop_first()),
    {
        reveal(Executor::inv);
        let k0 = rest[0] as int;
        let shorter = rest.drop_first();
        assert forall|k: int| after.parked(k) == before.parked(k) by {
            if k != k0 {
                assert(after.operations.entry(k) == before.operations.entry(k));
            }
        }
        assert forall|k: int| #[trigger] after.parked(k) implies 0 <= k < after.ingested
            && after.operations.entry(k).unwrap()@.declared() == s.ops[k] by {
            assert(before.parked(k));
            if k != k0 {
                assert(after.operations.entry(k) == before.operations.entry(k));
            }
        }
        assert forall|id: int|
            0 <= id < s.kinds.len() && #[trigger] s.results.dom().contains(id) implies (
        s.kinds[id] matches SlotKind::Gate { op, index } ==> op < after.ingested && !after.parked(
            op as int,
        )) by {
            match s.kinds[id] {
                SlotKind::Gate { op, index } => {
                    assert(!before.parked(op as int));
                },
                _ => {},
            }
        }
        assert forall|k: int|
            0 <= k < after.ingested && k != -1 && !(#[trigger] after.parked(
                k,
            )) implies s.args_complete(s.ops[k]) && s.effected(s.ops[k]) by {
            assert(!before.parked(k));
        }
        assert forall|k: int| #[trigger]
            after.parked(k) && FabricState::causal(s.ops[k]) && s.args_complete(
                s.ops[k],
            ) implies shorter.contains(k as usize) || exists|j: int|
            0 <= j < s.ops[k].args.len() && fresh.contains(#[trigger] s.ops[k].args[j]) by {
            assert(before.parked(k));
            if k != k0 && rest.contains(k as usize) {
                let i = choose|i: int| 0 <= i < rest.len() && rest[i] == k as usize;
                assert(i != 0);
                assert(shorter[i - 1] == k as usize);
            }
        }
        assert forall|k: int, j: int|
            #![trigger after.parked(k), s.ops[k].args[j]]
            after.parked(k) && 0 <= j < s.ops[k].args.len() && s.ops[k].args[j] < usize::MAX && (
            !s.results.dom().contains(s.ops[k].args[j] as int) || fresh.contains(
                s.ops[k].args[j],
            )) implies after.waiting_on(s.ops[k].args[j] as int).contains(k as usize) by {
            assert(before.parked(k));
        }
    }

    /// Visit the dependents of every result on `fresh`, and of every result
    /// that becomes resident on the way: each visit lowers the count of the
    /// dependent by one, and a dependent whose count has reached zero is
    /// evaluated
    fn propagate(&mut self, fabric: &mut FabricInner, fresh: Vec<ResultId>)
        requires
            old(fabric).wf(),
            old(fabric)@.results_sound(),
            old(self).inv(old(fabric)@, fresh@, -1, Seq::empty()),
            old(self).counted(old(fabric)@, fresh@, Seq::empty()),
            old(self).unsent(old(fabric)@, -1),
        ensures
            final(fabric).wf(),
            final(fabric)@.results_sound(),
            final(fabric)@.evolves_from(old(fabric)@),
            final(fabric)@.queue == old(fabric)@.queue,
            final(fabric)@.early == old(fabric)@.early,
            final(fabric)@.fulfilled_from(old(fabric)@, Seq::empty()),
            final(self).wf(final(fabric)@),
            final(self).ingested == old(self).ingested,
            final(fabric)@.stopped == old(fabric)@.stopped,
    {
        let mut fresh = fresh;
        let ghost s0 = fabric@;
        proof {
            fabric.lemma_wf_graph();
            lemma_missing_finite(s0);
            lemma_quiet_frame(s0, s0);
        }
        while fresh.len() > 0
            invariant
                fabric.wf(),
                fabric@.results_sound(),
                fabric@.evolves_from(s0),
                fabric@.queue == s0.queue,
                fabric@.early == s0.early,
                fabric@.missing().finite(),
                fabric@.fulfilled_from(s0, Seq::empty()),
                self.inv(fabric@, fresh@, -1, Seq::empty()),
                self.counted(fabric@, fresh@, Seq::empty()),
                self.unsent(fabric@, -1),
                self.ingested == old(self).ingested,
                fabric@.stopped == old(fabric)@.stopped,
            decreases fresh@.len() + fabric@.missing().len(),
        {
            let ghost before_pop = fresh@;
            let id = fresh.pop().unwrap();
            let ghost entry_self = *self;
            let waiting = self.dependencies.take(id);
            let ghost s1 = fabric@;
            proof {
                fabric.lemma_wf_graph();
                assert(before_pop =~= fresh@.push(id));
            }
            match waiting {
                Some(list) => {
                    proof {
                        Executor::lemma_inv_after_pop(entry_self, *self, s1, fresh@, id, list@);
                        Executor::lemma_counted_after_pop(
                            entry_self,
                            *self,
                            s1,
                            fresh@,
                            id,
                            list@,
                        );
                        Executor::lemma_unsent_same(entry_self, *self, s1, -1, -1);
                        assert(list@.subrange(0, list@.len() as int) =~= list@);
                    }
                    let mut i: usize = 0;
                    while i < list.len()
                        invariant
                            i <= list@.len(),
                            fabric.wf(),
                            fabric@.results_sound(),
                            fabric@.evolves_from(s0),
                            fabric@.queue == s0.queue,
                            fabric@.early == s0.early,
                            fabric@.missing().finite(),
                            fabric@.fulfilled_from(s0, Seq::empty()),
                            self.inv(
                                fabric@,
                                fresh@,
                                -1,
                                list@.subrange(i as int, list@.len() as int),
                            ),
                            self.counted(
                                fabric@,
                                fresh@,
                                list@.subrange(i as int, list@.len() as int),
                            ),
                            self.unsent(fabric@, -1),
                            self.ingested == old(self).ingested,
                            fabric@.stopped == old(fabric)@.stopped,
                            fresh@.len() + fabric@.missing().len() == before_pop.len() - 1
                                + s1.missing().len(),
                        decreases list@.len() - i,
                    {
                        let k = list[i];
                        let ghost rest = list@.subrange(i as int, list@.len() as int);
                        let ghost shorter = list@.subrange(i + 1, list@.len() as int);
                        let ghost visit_self = *self;
                        let ghost s2 = fabric@;
                        proof {
                            fabric.lemma_wf_graph();
                            assert(rest[0] == k);
                            assert(rest.drop_first() =~= shorter);
                        }
                        match self.operations.take(k) {
                            Some(op) => {
                                let mut op = op;
                                proof {
                                    Executor::lemma_inv_take(visit_self, *self, s2, fresh@, rest);
                                    Executor::lemma_counted_take(
                                        visit_self,
                                        *self,
                                        s2,
                                        fresh@,
                                        rest,
                                    );
                                    Executor::lemma_unsent_same(
                                        visit_self,
                                        *self,
                                        s2,
                                        -1,
                                        k as int,
                                    );
                                }
                                // One of the arguments that the operation awaited has
                                // become resident. The count says nothing of an
                                // operation that refers to results allocated after its
                                // own, so the arguments are looked up in any case.
                                if op.inflight_args > 0 {
                                    op.inflight_args = op.inflight_args - 1;
                                }
                                let ready = if op.inflight_args == 0 {
                                    collect_inputs(fabric, &op)
                                } else {
                                    None
                                };
                                match ready {
                                    Some(inputs) => {
                                        proof {
                                            assert(s2.arg_values(op@) =~= s2.arg_values(
                                                s2.ops[k as int],
                                            ));
                                            assert(s2.args_complete(s2.ops[k as int]));
                                            self.lemma_inv_bounds(
                                                s2,
                                                fresh@,
                                                k as int,
                                                shorter,
                                            );
                                            assert(FabricState::op_wf(
                                                s2.ops[k as int],
                                                k as int,
                                                s2.next_result_id,
                                            ));
                                            assert(op.id == k);
                                            if !(op.op_type is Network) {
                                                assert forall|j: int|
                                                    0 <= j < op.output_arity implies !s2.results.dom().contains(
                                                    #[trigger] output_id(op@, j),
                                                ) by {
                                                    assert(!s2.results.dom().contains(
                                                        output_id(s2.ops[k as int], j),
                                                    ));
                                                }
                                            }
                                        }
                                        self.execute_operation(
                                            fabric,
                                            &op,
                                            inputs,
                                            &mut fresh,
                                            Ghost(shorter),
                                        );
                                        proof {
                                            lemma_fulfilled_compose(
                                                fabric@,
                                                s2,
                                                s0,
                                                Seq::empty(),
                                                Seq::empty(),
                                                Seq::empty(),
                                            );
                                            lemma_evolves_transitive(s0, s2, fabric@);
                                        }
                                    },
                                    None => {
                                        let ghost put = op@;
                                        let ghost taken_self = *self;
                                        self.operations.insert(k, op);
                                        proof {
                                            assert forall|j: int| j != k implies #[trigger] self.operations.entry(
                                                j,
                                            ) == visit_self.operations.entry(j) by {
                                                assert(taken_self.operations.entry(j)
                                                    == visit_self.operations.entry(j));
                                            }
                                            Executor::lemma_counted_put_back(
                                                visit_self,
                                                *self,
                                                s2,
                                                fresh@,
                                                rest,
                                            );
                                            Executor::lemma_unsent_same(
                                                visit_self,
                                                *self,
                                                s2,
                                                -1,
                                                -1,
                                            );
                                            if FabricState::causal(s2.ops[k as int])
                                                && s2.args_complete(s2.ops[k as int]) {
                                                assert(s2.ops[k as int].args =~= put.args);
                                                assert(s2.args_complete(put));
                                                self.lemma_counted_visit_due(
                                                    s2,
                                                    fresh@,
                                                    shorter,
                                                    k as int,
                                                );
                                            }
                                            Executor::lemma_inv_put_back(
                                                visit_self,
                                                *self,
                                                s2,
                                                fresh@,
                                                rest,
                                                put,
                                            );
                                        }
                                    },
                                }
                            },
                            None => {
                                proof {
                                    assert forall|j: int| #[trigger] self.operations.entry(j)
                                        == visit_self.operations.entry(j) by {}
                                    assert(!visit_self.parked(k as int));
                                    visit_self.lemma_inv_skip(s2, fresh@, rest);
                                    visit_self.lemma_counted_skip(s2, fresh@, rest);
                                    self.lemma_inv_same(visit_self, s2, fresh@, shorter);
                                    self.lemma_counted_same(visit_self, s2, fresh@, shorter);
                                    Executor::lemma_unsent_same(visit_self, *self, s2, -1, -1);
                                }
                            },
                        }
                        i += 1;
                    }
                    proof {
                        assert(list@.subrange(i as int, list@.len() as int) =~= Seq::<
                            OperationId,
                        >::empty());
                    }
                },
                None => {
                    proof {
                        Executor::lemma_inv_after_pop(
                            entry_self,
                            *self,
                            s1,
                            fresh@,
                            id,
                            Seq::empty(),
                        );
                        Executor::lemma_counted_after_pop(
                            entry_self,
                            *self,
                            s1,
                            fresh@,
                            id,
                            Seq::empty(),
                        );
                        Executor::lemma_unsent_same(entry_self, *self, s1, -1, -1);
                    }
                },
            }
        }
        proof {
            assert(fresh@ =~= Seq::<ResultId>::empty());
        }
    }

    /// Two executors with the same records agree with the same states
    proof fn lemma_inv_same(
        &self,
        other: Executor,
        s: FabricState,
        fresh: Seq<ResultId>,
        rest: Seq<OperationId>,
    )
        requires
            other.inv(s, fresh, -1, rest),
            self.ingested == other.ingested,
            self.dependencies == other.dependencies,
            forall|j: int| #[trigger] self.operations.entry(j) == other.operations.entry(j),
        ensures
            self.inv(s, fresh, -1, rest),
    {
        reveal(Executor::inv);
        assert forall|k: int| self.parked(k) == other.parked(k) by {
            assert(self.operations.entry(k) == other.operations.entry(k));
        }
        assert forall|k: int| #[trigger] self.parked(k) implies 0 <= k < self.ingested
            && self.operations.entry(k).unwrap()@.declared() == s.ops[k] by {
            assert(other.parked(k));
            assert(self.operations.entry(k) == other.operations.entry(k));
        }
        assert forall|id: int|
            0 <= id < s.kinds.len() && #[trigger] s.results.dom().contains(id) implies (
        s.kinds[id] matches SlotKind::Gate { op, index } ==> op < self.ingested && !self.parked(
            op as int,
        )) by {
            match s.kinds[id] {
                SlotKind::Gate { op, index } => {
                    assert(!other.parked(op as int));
                },
                _ => {},
            }
        }
        assert forall|k: int|
            0 <= k < self.ingested && k != -1 && !(#[trigger] self.parked(
                k,
            )) implies s.args_complete(s.ops[k]) && s.effected(s.ops[k]) by {
            assert(!other.parked(k));
        }
        assert forall|k: int| #[trigger]
            self.parked(k) && FabricState::causal(s.ops[k]) && s.args_complete(
                s.ops[k],
            ) implies rest.contains(k as usize) || exists|j: int|
            0 <= j < s.ops[k].args.len() && fresh.contains(#[trigger] s.ops[k].args[j]) by {
            assert(other.parked(k));
        }
        assert forall|k: int, j: int|
            #![trigger self.parked(k), s.ops[k].args[j]]
            self.parked(k) && 0 <= j < s.ops[k].args.len() && s.ops[k].args[j] < usize::MAX && (
            !s.results.dom().contains(s.ops[k].args[j] as int) || fresh.contains(
                s.ops[k].args[j],
            )) implies self.waiting_on(s.ops[k].args[j] as int).contains(k as usize) by {
            assert(other.parked(k));
        }
    }

    /// Taking a message that is no operation off the execution queue leaves
    /// the records in agreement
    proof fn lemma_inv_after_pop_other(&self, s: FabricState)
        requires
            self.wf(s),
            s.queue.len() > 0,
            !(s.queue[0] is Op),
        ensures
            self.wf(s.popped()),
    {
        reveal(Executor::inv);
        reveal(Executor::counted);
        crate::fabric::lemma_op_messages_drop_first(s.queue);
        self.lemma_unsent_state(s, s.popped(), -1);
    }

    /// An operation on the execution queue is one that has not been taken in yet
    proof fn lemma_queued_op_bound(&self, s: FabricState)
        requires
            self.wf(s),
            s.queue.len() > 0,
            s.queue[0] is Op,
        ensures
            self.ingested < s.ops.len(),
    {
        reveal(Executor::inv);
        crate::fabric::lemma_op_messages_drop_first(s.queue);
        assert(s.ops.subrange(self.ingested as int, s.ops.len() as int).len() > 0);
    }

    /// Taking an operation off the execution queue leaves it as the one being
    /// worked: it is the next of the declared operations, and none of its
    /// results is resident
    proof fn lemma_inv_after_pop_op(before: Executor, after: Executor, s: FabricState)
        requires
            before.wf(s),
            s.graph_wf(),
            s.queue.len() > 0,
            s.queue[0] is Op,
            after.operations == before.operations,
            after.dependencies == before.dependencies,
            after.ingested == before.ingested + 1,
        ensures
            before.ingested < s.ops.len(),
            s.queue[0] == MessageView::Op(s.ops[before.ingested as int]),
            after.inv(s.popped(), Seq::empty(), before.ingested as int, Seq::empty()),
            !after.parked(before.ingested as int),
            !(s.ops[before.ingested as int].op_type is Network) ==> forall|j: int|
                0 <= j < s.ops[before.ingested as int].output_arity ==> !s.results.dom().contains(
                    #[trigger] output_id(s.ops[before.ingested as int], j),
                ),
    {
        reveal(Executor::inv);
        let t = s.popped();
        let k0 = before.ingested as int;
        let fresh = Seq::<ResultId>::empty();
        let rest = Seq::<OperationId>::empty();
        crate::fabric::lemma_op_messages_drop_first(s.queue);
        let queued = s.ops.subrange(k0, s.ops.len() as int);
        assert(queued.len() > 0);
        assert(queued[0] == s.ops[k0]);
        assert(t.queued_ops() =~= t.ops.subrange(k0 + 1, t.ops.len() as int));
        assert forall|k: int| after.parked(k) == before.parked(k) by {}
        if before.parked(k0) {
            assert(k0 < before.ingested);
        }
        assert forall|k: int|
            0 <= k < after.ingested && k != k0 && !(#[trigger] after.parked(
                k,
            )) implies t.args_complete(t.ops[k]) && t.effected(t.ops[k]) by {
            assert(!before.parked(k));
            assert(t.arg_values(t.ops[k]) =~= s.arg_values(s.ops[k]));
        }
        assert forall|k: int| #[trigger]
            after.parked(k) && FabricState::causal(t.ops[k]) && t.args_complete(
                t.ops[k],
            ) implies rest.contains(k as usize) || exists|j: int|
            0 <= j < t.ops[k].args.len() && fresh.contains(#[trigger] t.ops[k].args[j]) by {
            assert(before.parked(k));
        }
        assert forall|k: int, j: int|
            #![trigger after.parked(k), t.ops[k].args[j]]
            after.parked(k) && 0 <= j < t.ops[k].args.len() && t.ops[k].args[j] < usize::MAX && (
            !t.results.dom().contains(t.ops[k].args[j] as int) || fresh.contains(
                t.ops[k].args[j],
            )) implies after.waiting_on(t.ops[k].args[j] as int).contains(k as usize) by {
            assert(before.parked(k));
        }
        assert forall|id: int|
            0 <= id < t.kinds.len() && #[trigger] t.results.dom().contains(id) implies (
        t.kinds[id] matches SlotKind::Gate { op, index } ==> op < after.ingested && !after.parked(
            op as int,
        )) by {
            match s.kinds[id] {
                SlotKind::Gate { op, index } => {
                    assert(!before.parked(op as int));
                },
                _ => {},
            }
        }
        if !(s.ops[k0].op_type is Network) {
            assert forall|j: int| 0 <= j < s.ops[k0].output_arity implies !s.results.dom().contains(
                #[trigger] output_id(s.ops[k0], j),
            ) by {
                let id = output_id(s.ops[k0], j);
                assert(s.kinds[id] == output_kind(k0 as usize, s.ops[k0].op_type, j));
                assert(FabricState::op_wf(s.ops[k0], k0, s.next_result_id));
            }
        }
    }

    /// Recording an operation as waiting for a result leaves the records in
    /// agreement
    proof fn lemma_inv_after_record(
        before: Executor,
        after: Executor,
        s: FabricState,
        limbo: int,
        a: ResultId,
        k: OperationId,
    )
        requires
            before.inv(s, Seq::empty(), limbo, Seq::empty()),
            after.operations == before.operations,
            after.ingested == before.ingested,
            after.dependencies.same_except(&before.dependencies, a as int),
            after.waiting_on(a as int) == before.waiting_on(a as int).push(k),
        ensures
            after.inv(s, Seq::empty(), limbo, Seq::empty()),
            forall|b: int|
                before.waiting_on(b).contains(k) ==> (#[trigger] after.waiting_on(b)).contains(k),
            after.waiting_on(a as int).contains(k),
    {
        reveal(Executor::inv);
        let fresh = Seq::<ResultId>::empty();
        let rest = Seq::<OperationId>::empty();
        assert forall|b: int, x: OperationId| before.waiting_on(b).contains(x) implies #[trigger] after.waiting_on(
            b,
        ).contains(x) by {
            if b == a {
                let i = choose|i: int|
                    0 <= i < before.waiting_on(b).len() && before.waiting_on(b)[i] == x;
                assert(after.waiting_on(b)[i] == x);
            } else {
                assert(after.dependencies.entry(b) == before.dependencies.entry(b));
            }
        }
        assert(after.waiting_on(a as int)[before.waiting_on(a as int).len() as int] == k);
        assert forall|x: int| after.parked(x) == before.parked(x) by {}
        assert forall|x: int|
            0 <= x < after.ingested && x != limbo && !(#[trigger] after.parked(
                x,
            )) implies s.args_complete(s.ops[x]) && s.effected(s.ops[x]) by {
            assert(!before.parked(x));
        }
        assert forall|x: int| #[trigger]
            after.parked(x) && FabricState::causal(s.ops[x]) && s.args_complete(
                s.ops[x],
            ) implies rest.contains(x as usize) || exists|j: int|
            0 <= j < s.ops[x].args.len() && fresh.contains(#[trigger] s.ops[x].args[j]) by {
            assert(before.parked(x));
        }
        assert forall|x: int, j: int|
            #![trigger after.parked(x), s.ops[x].args[j]]
            after.parked(x) && 0 <= j < s.ops[x].args.len() && s.ops[x].args[j] < usize::MAX && (
            !s.results.dom().contains(s.ops[x].args[j] as int) || fresh.contains(
                s.ops[x].args[j],
            )) implies after.waiting_on(s.ops[x].args[j] as int).contains(x as usize) by {
            assert(before.parked(x));
            assert(before.waiting_on(s.ops[x].args[j] as int).contains(x as usize));
        }
        assert forall|id: int|
            0 <= id < s.kinds.len() && #[trigger] s.results.dom().contains(id) implies (
        s.kinds[id] matches SlotKind::Gate { op, index } ==> op < after.ingested && !after.parked(
            op as int,
        )) by {
            match s.kinds[id] {
                SlotKind::Gate { op, index } => {
                    assert(!before.parked(op as int));
                },
                _ => {},
            }
        }
    }

    /// Putting an operation that waits for an argument among the waiting ones,
    /// once it is recorded with each result that it waits for, leaves nothing
    /// under way
    proof fn lemma_inv_after_park(
        before: Executor,
        after: Executor,
        s: FabricState,
        k: OperationId,
        op: OperationView,
    )
        requires
            before.inv(s, Seq::empty(), k as int, Seq::empty()),
            s.graph_wf(),
            k < before.ingested,
            !before.parked(k as int),
            !s.args_complete(s.ops[k as int]),
            op.declared() == s.ops[k as int],
            forall|j: int|
                0 <= j < op.args.len() && op.args[j] < usize::MAX && !s.results.dom().contains(
                    #[trigger] op.args[j] as int,
                ) ==> before.waiting_on(op.args[j] as int).contains(k),
            !(s.ops[k as int].op_type is Network) ==> forall|j: int|
                0 <= j < s.ops[k as int].output_arity ==> !s.results.dom().contains(
                    #[trigger] output_id(s.ops[k as int], j),
                ),
            after.dependencies == before.dependencies,
            after.ingested == before.ingested,
            after.operations.entry(k as int) matches Some(o) && o@ == op,
            after.operations.same_except(&before.operations, k as int),
        ensures
            after.inv(s, Seq::empty(), -1, Seq::empty()),
    {
        reveal(Executor::inv);
        let fresh = Seq::<ResultId>::empty();
        let rest = Seq::<OperationId>::empty();
        let k0 = k as int;
        assert forall|x: int| x != k0 implies after.parked(x) == before.parked(x) by {
            assert(after.operations.entry(x) == before.operations.entry(x));
        }
        assert(after.parked(k0));
        assert forall|x: int| #[trigger] after.parked(x) implies 0 <= x < after.ingested
            && after.operations.entry(x).unwrap()@.declared() == s.ops[x] by {
            if x != k0 {
                assert(before.parked(x));
                assert(after.operations.entry(x) == before.operations.entry(x));
            }
        }
        assert forall|id: int|
            0 <= id < s.kinds.len() && #[trigger] s.results.dom().contains(id) implies (
        s.kinds[id] matches SlotKind::Gate { op, index } ==> op < after.ingested && !after.parked(
            op as int,
        )) by {
            match s.kinds[id] {
                SlotKind::Gate { op, index } => {
                    assert(!before.parked(op as int));
                    if op == k {
                        assert(FabricState::kind_wf(s.kinds[id], id, s.ops));
                        assert(output_id(s.ops[k0], index as int) == id);
                    }
                },
                _ => {},
            }
        }
        assert forall|x: int|
            0 <= x < after.ingested && x != -1 && !(#[trigger] after.parked(
                x,
            )) implies s.args_complete(s.ops[x]) && s.effected(s.ops[x]) by {
            assert(x != k0);
            assert(!before.parked(x));
        }
        assert forall|x: int| #[trigger]
            after.parked(x) && FabricState::causal(s.ops[x]) && s.args_complete(
                s.ops[x],
            ) implies rest.contains(x as usize) || exists|j: int|
            0 <= j < s.ops[x].args.len() && fresh.contains(#[trigger] s.ops[x].args[j]) by {
            assert(x != k0);
            assert(before.parked(x));
        }
        assert forall|x: int, j: int|
            #![trigger after.parked(x), s.ops[x].args[j]]
            after.parked(x) && 0 <= j < s.ops[x].args.len() && s.ops[x].args[j] < usize::MAX && (
            !s.results.dom().contains(s.ops[x].args[j] as int) || fresh.contains(
                s.ops[x].args[j],
            )) implies after.waiting_on(s.ops[x].args[j] as int).contains(x as usize) by {
            if x != k0 {
                assert(before.parked(x));
            } else {
                assert(s.ops[k0].args =~= op.args);
            }
        }
    }

    /// What holds of the operations that have not been evaluated holds of
    /// fewer of them
    proof fn lemma_unsent_same(
        before: Executor,
        after: Executor,
        s: FabricState,
        limbo_before: int,
        limbo_after: int,
    )
        requires
            before.unsent(s, limbo_before),
            forall|k: int|
                0 <= k && #[trigger] after.outstanding(k, limbo_after) ==> before.outstanding(
                    k,
                    limbo_before,
                ),
        ensures
            after.unsent(s, limbo_after),
    {
        reveal(Executor::unsent);
        assert forall|k: int|
            0 <= k < s.ops.len() && after.outstanding(k, limbo_after) && (#[trigger] s.ops[k]).op_type
                is Network implies s.unsent(s.ops[k].result_id as int) by {
            assert(before.outstanding(k, limbo_before));
        }
    }

    /// Once the operation that was being worked has been evaluated, what
    /// holds of the others still holds
    proof fn lemma_unsent_settle(&self, s: FabricState, limbo: int)
        requires
            self.unsent(s, limbo),
        ensures
            self.unsent(s, -1),
    {
        reveal(Executor::unsent);
        assert forall|k: int|
            0 <= k < s.ops.len() && self.outstanding(k, -1) && (#[trigger] s.ops[k]).op_type
                is Network implies s.unsent(s.ops[k].result_id as int) by {
            assert(self.outstanding(k, limbo));
        }
    }

    /// Putting the operation that was being worked among the waiting ones
    /// sends nothing
    proof fn lemma_unsent_after_park(
        before: Executor,
        after: Executor,
        s: FabricState,
        k: OperationId,
    )
        requires
            before.unsent(s, k as int),
            after.ingested == before.ingested,
            after.operations.same_except(&before.operations, k as int),
        ensures
            after.unsent(s, -1),
    {
        assert forall|x: int| 0 <= x && #[trigger] after.outstanding(x, -1) implies before.outstanding(
            x,
            k as int,
        ) by {
            if x != k as int {
                assert(after.operations.entry(x) == before.operations.entry(x));
            }
        }
        Executor::lemma_unsent_same(before, after, s, k as int, -1);
    }

    /// A change of the state that touches neither the graph nor the messages
    /// to the peer sends nothing
    proof fn lemma_unsent_state(&self, s: FabricState, t: FabricState, limbo: int)
        requires
            self.unsent(s, limbo),
            t.ops == s.ops,
            t.sent_log == s.sent_log,
        ensures
            self.unsent(t, limbo),
    {
        reveal(Executor::unsent);
        assert forall|k: int|
            0 <= k < t.ops.len() && self.outstanding(k, limbo) && (#[trigger] t.ops[k]).op_type
                is Network implies t.unsent(t.ops[k].result_id as int) by {
            assert(s.unsent(s.ops[k].result_id as int));
        }
    }

    /// The message of the network operation that is being worked has not been
    /// handed over; once it is, the operation has been evaluated
    proof fn lemma_unsent_after_sent(&self, s: FabricState, k: int, payload: Value)
        requires
            self.unsent(s, k),
            s.graph_wf(),
            0 <= k < s.ops.len(),
            k < self.ingested,
            !self.parked(k),
            s.ops[k].op_type is Network,
        ensures
            s.unsent(s.ops[k].result_id as int),
            self.unsent(s.sent(s.ops[k].result_id, payload), -1),
    {
        reveal(Executor::unsent);
        reveal(FabricState::ops_ordered);
        let t = s.sent(s.ops[k].result_id, payload);
        assert(self.outstanding(k, k));
        assert forall|other: int|
            0 <= other < t.ops.len() && self.outstanding(other, -1) && (#[trigger] t.ops[other]).op_type
                is Network implies t.unsent(t.ops[other].result_id as int) by {
            assert(self.outstanding(other, k));
            assert(s.unsent(s.ops[other].result_id as int));
            assert(FabricState::op_wf(s.ops[other], other, s.next_result_id));
            assert(FabricState::op_wf(s.ops[k], k, s.next_result_id));
            assert(other != k);
            if other < k {
                assert(s.ops[other].result_id + s.ops[other].output_arity <= s.ops[k].result_id);
            } else {
                assert(s.ops[k].result_id + s.ops[k].output_arity <= s.ops[other].result_id);
            }
            assert forall|i: int| 0 <= i < t.sent_log.len() implies (#[trigger] t.sent_log[i]).result_id
                != t.ops[other].result_id as int by {
                if i < s.sent_log.len() {
                    assert(t.sent_log[i] == s.sent_log[i]);
                }
            }
        }
    }

    /// Fulfilling a result that was not resident, and putting it on the list of
    /// results whose dependents are to be visited, leaves the counts as they
    /// are
    proof fn lemma_counted_after_fulfil(
        &self,
        s: FabricState,
        fresh: Seq<ResultId>,
        rest: Seq<OperationId>,
        id: ResultId,
        value: Value,
    )
        requires
            self.counted(s, fresh, rest),
            !s.results.dom().contains(id as int),
        ensures
            self.counted(s.fulfilled(id as int, value), fresh.push(id), rest),
    {
        reveal(Executor::counted);
        let t = s.fulfilled(id as int, value);
        let more = fresh.push(id);
        assert(more[fresh.len() as int] == id);
        assert forall|a: usize| awaited(a, t.results.dom(), more) == awaited(
            a,
            s.results.dom(),
            fresh,
        ) by {
            if fresh.contains(a) {
                let i = choose|i: int| 0 <= i < fresh.len() && fresh[i] == a;
                assert(more[i] == a);
            }
            if more.contains(a) && a != id {
                let i = choose|i: int| 0 <= i < more.len() && more[i] == a;
                assert(fresh[i] == a);
            }
        }
        assert forall|k: int| #[trigger]
            self.parked(k) && FabricState::causal(t.ops[k]) implies self.awaits(k)
            == awaited_count(t.ops[k].args, t.results.dom(), more) + occurrences(
            rest,
            k as usize,
        ) by {
            lemma_awaited_same(s.ops[k].args, s.results.dom(), fresh, t.results.dom(), more);
        }
    }

    /// Handing a payload to the outbound queue leaves the counts as they are
    proof fn lemma_counted_after_sent(
        &self,
        s: FabricState,
        fresh: Seq<ResultId>,
        rest: Seq<OperationId>,
        id: ResultId,
        payload: Value,
    )
        requires
            self.counted(s, fresh, rest),
        ensures
            self.counted(s.sent(id, payload), fresh, rest),
    {
        reveal(Executor::counted);
    }

    /// Taking a result off the list of results to visit, together with the
    /// operations recorded as waiting for it, turns each argument that awaited
    /// it into a visit that is still to come
    proof fn lemma_counted_after_pop(
        before: Executor,
        after: Executor,
        s: FabricState,
        fresh: Seq<ResultId>,
        id: ResultId,
        list: Seq<OperationId>,
    )
        requires
            before.counted(s, fresh.push(id), Seq::empty()),
            s.results.dom().contains(id as int),
            !fresh.contains(id),
            id < usize::MAX,
            after.operations == before.operations,
            after.ingested == before.ingested,
            list == before.waiting_on(id as int),
            after.dependencies.entry(id as int) is None,
            after.dependencies.same_except(&before.dependencies, id as int),
        ensures
            after.counted(s, fresh, list),
    {
        reveal(Executor::counted);
        assert forall|k: int| #[trigger] after.parked(k) implies 0 <= k < after.ingested by {
            assert(before.parked(k));
        }
        let longer = fresh.push(id);
        let resident = s.results.dom();
        assert(longer[fresh.len() as int] == id);
        assert forall|a: int| a != id implies after.waiting_on(a) == before.waiting_on(a) by {
            assert(after.dependencies.entry(a) == before.dependencies.entry(a));
        }
        assert forall|a: int, i: int| 0 <= i < after.waiting_on(a).len() implies (
        #[trigger] after.waiting_on(a)[i]) < after.ingested by {
            assert(a != id);
            assert(before.waiting_on(a)[i] < before.ingested);
        }
        assert forall|k: int| #[trigger]
            after.parked(k) && FabricState::causal(s.ops[k]) implies after.awaits(k)
            == awaited_count(s.ops[k].args, resident, fresh) + occurrences(list, k as usize) by {
            assert(before.parked(k));
            lemma_awaited_settle(s.ops[k].args, resident, fresh, id);
            assert(awaited(id, resident, longer));
            assert(occurrences(before.waiting_on(id as int), k as usize) == occurrences(
                s.ops[k].args,
                id,
            ));
            assert(occurrences(Seq::<OperationId>::empty(), k as usize) == 0);
        }
        assert forall|k: int, a: int|
            #![trigger after.parked(k), after.waiting_on(a)]
            after.parked(k) && FabricState::causal(s.ops[k]) && 0 <= a < usize::MAX && awaited(
                a as usize,
                resident,
                fresh,
            ) implies occurrences(after.waiting_on(a), k as usize) == occurrences(
            s.ops[k].args,
            a as usize,
        ) by {
            assert(before.parked(k));
            assert(a != id);
            if fresh.contains(a as usize) {
                let i = choose|i: int| 0 <= i < fresh.len() && fresh[i] == a as usize;
                assert(longer[i] == a as usize);
            }
            assert(awaited(a as usize, resident, longer));
            assert(occurrences(before.waiting_on(a), k as usize) == occurrences(
                s.ops[k].args,
                a as usize,
            ));
        }
    }

    /// Passing over an operation that does not wait leaves the counts of the
    /// others as they are
    proof fn lemma_counted_skip(&self, s: FabricState, fresh: Seq<ResultId>, rest: Seq<OperationId>)
        requires
            self.counted(s, fresh, rest),
            rest.len() > 0,
            !self.parked(rest[0] as int),
        ensures
            self.counted(s, fresh, rest.drop_first()),
    {
        reveal(Executor::counted);
        assert forall|k: int| #[trigger]
            self.parked(k) && FabricState::causal(s.ops[k]) implies self.awaits(k)
            == awaited_count(s.ops[k].args, s.results.dom(), fresh) + occurrences(
            rest.drop_first(),
            k as usize,
        ) by {
            lemma_occurrences_drop_first(rest, k as usize);
        }
    }

    /// Taking an operation out of the waiting ones to visit it leaves the
    /// counts of the others as they are; the operation itself awaited at
    /// least this visit
    proof fn lemma_counted_take(
        before: Executor,
        after: Executor,
        s: FabricState,
        fresh: Seq<ResultId>,
        rest: Seq<OperationId>,
    )
        requires
            before.counted(s, fresh, rest),
            rest.len() > 0,
            before.parked(rest[0] as int),
            after.dependencies == before.dependencies,
            after.ingested == before.ingested,
            after.operations.entry(rest[0] as int) is None,
            after.operations.same_except(&before.operations, rest[0] as int),
        ensures
            after.counted(s, fresh, rest.drop_first()),
            FabricState::causal(s.ops[rest[0] as int]) ==> before.awaits(rest[0] as int)
                == awaited_count(s.ops[rest[0] as int].args, s.results.dom(), fresh) + occurrences(
                rest.drop_first(),
                rest[0],
            ) + 1,
    {
        reveal(Executor::counted);
        assert forall|a: int, i: int| 0 <= i < after.waiting_on(a).len() implies (
        #[trigger] after.waiting_on(a)[i]) < after.ingested by {
            assert(before.waiting_on(a)[i] < before.ingested);
        }
        assert forall|k: int| #[trigger] after.parked(k) implies 0 <= k < after.ingested by {
            assert(after.operations.entry(k) == before.operations.entry(k) || k == rest[0] as int);
            assert(before.parked(k));
        }
        let k0 = rest[0] as int;
        lemma_occurrences_drop_first(rest, rest[0]);
        assert forall|k: int| #[trigger] after.parked(k) implies before.parked(k) && k != k0
            && after.awaits(k) == before.awaits(k) by {
            assert(after.operations.entry(k) == before.operations.entry(k) || k == k0);
        }
        assert forall|k: int| #[trigger]
            after.parked(k) && FabricState::causal(s.ops[k]) implies after.awaits(k)
            == awaited_count(s.ops[k].args, s.results.dom(), fresh) + occurrences(
            rest.drop_first(),
            k as usize,
        ) by {
            assert(before.parked(k));
            lemma_occurrences_drop_first(rest, k as usize);
        }
        assert forall|k: int, a: int|
            #![trigger after.parked(k), after.waiting_on(a)]
            after.parked(k) && FabricState::causal(s.ops[k]) && 0 <= a < usize::MAX && awaited(
                a as usize,
                s.results.dom(),
                fresh,
            ) implies occurrences(after.waiting_on(a), k as usize) == occurrences(
            s.ops[k].args,
            a as usize,
        ) by {
            assert(before.parked(k));
            assert(occurrences(before.waiting_on(a), k as usize) == occurrences(
                s.ops[k].args,
                a as usize,
            ));
        }
    }

    /// Putting a visited operation back among the waiting ones, its count one
    /// less, leaves the counts in agreement
    proof fn lemma_counted_put_back(
        before: Executor,
        after: Executor,
        s: FabricState,
        fresh: Seq<ResultId>,
        rest: Seq<OperationId>,
    )
        requires
            before.counted(s, fresh, rest),
            rest.len() > 0,
            before.parked(rest[0] as int),
            after.dependencies == before.dependencies,
            after.ingested == before.ingested,
            after.parked(rest[0] as int),
            FabricState::causal(s.ops[rest[0] as int]) ==> after.awaits(rest[0] as int) + 1
                == before.awaits(rest[0] as int),
            after.operations.same_except(&before.operations, rest[0] as int),
        ensures
            after.counted(s, fresh, rest.drop_first()),
    {
        reveal(Executor::counted);
        assert forall|a: int, i: int| 0 <= i < after.waiting_on(a).len() implies (
        #[trigger] after.waiting_on(a)[i]) < after.ingested by {
            assert(before.waiting_on(a)[i] < before.ingested);
        }
        assert forall|k: int| #[trigger] after.parked(k) implies 0 <= k < after.ingested by {
            assert(after.operations.entry(k) == before.operations.entry(k) || k == rest[0] as int);
            assert(before.parked(k));
        }
        let k0 = rest[0] as int;
        assert forall|k: int| #[trigger] after.parked(k) implies before.parked(k) && (k != k0
            ==> after.awaits(k) == before.awaits(k)) by {
            assert(after.operations.entry(k) == before.operations.entry(k) || k == k0);
        }
        assert forall|k: int| #[trigger]
            after.parked(k) && FabricState::causal(s.ops[k]) implies after.awaits(k)
            == awaited_count(s.ops[k].args, s.results.dom(), fresh) + occurrences(
            rest.drop_first(),
            k as usize,
        ) by {
            assert(before.parked(k));
            lemma_occurrences_drop_first(rest, k as usize);
        }
        assert forall|k: int, a: int|
            #![trigger after.parked(k), after.waiting_on(a)]
            after.parked(k) && FabricState::causal(s.ops[k]) && 0 <= a < usize::MAX && awaited(
                a as usize,
                s.results.dom(),
                fresh,
            ) implies occurrences(after.waiting_on(a), k as usize) == occurrences(
            s.ops[k].args,
            a as usize,
        ) by {
            assert(before.parked(k));
            assert(occurrences(before.waiting_on(a), k as usize) == occurrences(
                s.ops[k].args,
                a as usize,
            ));
        }
    }

    /// A waiting operation whose count is not zero, and whose arguments are
    /// all resident, is still to be visited
    proof fn lemma_counted_visit_due(
        &self,
        s: FabricState,
        fresh: Seq<ResultId>,
        rest: Seq<OperationId>,
        k: int,
    )
        requires
            self.counted(s, fresh, rest),
            self.parked(k),
            FabricState::causal(s.ops[k]),
            s.args_complete(s.ops[k]),
            self.awaits(k) > 0,
        ensures
            rest.contains(k as usize) || exists|j: int|
                0 <= j < s.ops[k].args.len() && fresh.contains(#[trigger] s.ops[k].args[j]),
    {
        reveal(Executor::counted);
        let args = s.ops[k].args;
        lemma_occurrences_contains(rest, k as usize);
        lemma_awaited_none(args, s.results.dom(), fresh);
        if !rest.contains(k as usize) {
            let j = choose|j: int|
                0 <= j < args.len() && awaited(#[trigger] args[j], s.results.dom(), fresh);
            assert(s.results.dom().contains(args[j] as int));
            assert(fresh.contains(s.ops[k].args[j]));
        }
    }

    /// Two executors with the same records have the same counts
    proof fn lemma_counted_same(
        &self,
        other: Executor,
        s: FabricState,
        fresh: Seq<ResultId>,
        rest: Seq<OperationId>,
    )
        requires
            other.counted(s, fresh, rest),
            self.ingested == other.ingested,
            self.dependencies == other.dependencies,
            forall|j: int| #[trigger] self.operations.entry(j) == other.operations.entry(j),
        ensures
            self.counted(s, fresh, rest),
    {
        reveal(Executor::counted);
        assert forall|a: int, i: int| 0 <= i < self.waiting_on(a).len() implies (
        #[trigger] self.waiting_on(a)[i]) < self.ingested by {
            assert(other.waiting_on(a)[i] < other.ingested);
        }
        assert forall|k: int| #[trigger] self.parked(k) implies 0 <= k < self.ingested by {
            assert(self.operations.entry(k) == other.operations.entry(k));
            assert(other.parked(k));
        }
        assert forall|k: int| self.parked(k) == other.parked(k) && self.awaits(k) == other.awaits(
            k,
        ) by {
            assert(self.operations.entry(k) == other.operations.entry(k));
        }
        assert forall|k: int| #[trigger]
            self.parked(k) && FabricState::causal(s.ops[k]) implies self.awaits(k)
            == awaited_count(s.ops[k].args, s.results.dom(), fresh) + occurrences(
            rest,
            k as usize,
        ) by {
            assert(other.parked(k));
        }
        assert forall|k: int, a: int|
            #![trigger self.parked(k), self.waiting_on(a)]
            self.parked(k) && FabricState::causal(s.ops[k]) && 0 <= a < usize::MAX && awaited(
                a as usize,
                s.results.dom(),
                fresh,
            ) implies occurrences(self.waiting_on(a), k as usize) == occurrences(
            s.ops[k].args,
            a as usize,
        ) by {
            assert(other.parked(k));
            assert(occurrences(other.waiting_on(a), k as usize) == occurrences(
                s.ops[k].args,
                a as usize,
            ));
        }
    }

    /// Taking an operation off the execution queue leaves the counts as they
    /// are; the operation is recorded with no result yet
    proof fn lemma_counted_after_pop_op(before: Executor, after: Executor, s: FabricState)
        requires
            before.counted(s, Seq::empty(), Seq::empty()),
            s.queue.len() > 0,
            after.operations == before.operations,
            after.dependencies == before.dependencies,
            after.ingested == before.ingested + 1,
        ensures
            after.counted(s.popped(), Seq::empty(), Seq::empty()),
            forall|a: int| occurrences(#[trigger] after.waiting_on(a), before.ingested) == 0,
    {
        reveal(Executor::counted);
        assert forall|k: int| #[trigger] after.parked(k) implies 0 <= k < after.ingested by {
            assert(before.parked(k));
        }
        let t = s.popped();
        let fresh = Seq::<ResultId>::empty();
        let rest = Seq::<OperationId>::empty();
        assert forall|a: int, i: int| 0 <= i < after.waiting_on(a).len() implies (
        #[trigger] after.waiting_on(a)[i]) < after.ingested by {
            assert(before.waiting_on(a)[i] < before.ingested);
        }
        assert forall|k: int| #[trigger]
            after.parked(k) && FabricState::causal(t.ops[k]) implies after.awaits(k)
            == awaited_count(t.ops[k].args, t.results.dom(), fresh) + occurrences(
            rest,
            k as usize,
        ) by {
            assert(before.parked(k));
        }
        assert forall|k: int, a: int|
            #![trigger after.parked(k), after.waiting_on(a)]
            after.parked(k) && FabricState::causal(t.ops[k]) && 0 <= a < usize::MAX && awaited(
                a as usize,
                t.results.dom(),
                fresh,
            ) implies occurrences(after.waiting_on(a), k as usize) == occurrences(
            t.ops[k].args,
            a as usize,
        ) by {
            assert(before.parked(k));
            assert(occurrences(before.waiting_on(a), k as usize) == occurrences(
                s.ops[k].args,
                a as usize,
            ));
        }
        assert forall|a: int| occurrences(#[trigger] after.waiting_on(a), before.ingested)
            == 0 by {
            let list = after.waiting_on(a);
            lemma_occurrences_contains(list, before.ingested);
            if list.contains(before.ingested) {
                let i = choose|i: int| 0 <= i < list.len() && list[i] == before.ingested;
                assert(before.waiting_on(a)[i] < before.ingested);
            }
        }
    }

    /// Recording an operation that is being taken in as waiting for a result
    /// leaves the counts of the waiting operations as they are
    proof fn lemma_counted_after_record(
        before: Executor,
        after: Executor,
        s: FabricState,
        a: ResultId,
        k: OperationId,
    )
        requires
            before.counted(s, Seq::empty(), Seq::empty()),
            !before.parked(k as int),
            k < before.ingested,
            after.operations == before.operations,
            after.ingested == before.ingested,
            after.dependencies.same_except(&before.dependencies, a as int),
            after.waiting_on(a as int) == before.waiting_on(a as int).push(k),
        ensures
            after.counted(s, Seq::empty(), Seq::empty()),
            occurrences(after.waiting_on(a as int), k) == occurrences(
                before.waiting_on(a as int),
                k,
            ) + 1,
            forall|b: int| b != a ==> #[trigger] after.waiting_on(b) == before.waiting_on(b),
    {
        reveal(Executor::counted);
        assert forall|k: int| #[trigger] after.parked(k) implies 0 <= k < after.ingested by {
            assert(before.parked(k));
        }
        let fresh = Seq::<ResultId>::empty();
        let rest = Seq::<OperationId>::empty();
        let old_list = before.waiting_on(a as int);
        assert forall|b: int| b != a implies #[trigger] after.waiting_on(b) == before.waiting_on(
            b,
        ) by {
            assert(after.dependencies.entry(b) == before.dependencies.entry(b));
        }
        lemma_occurrences_push(old_list, k, k);
        assert forall|b: int, i: int| 0 <= i < after.waiting_on(b).len() implies (
        #[trigger] after.waiting_on(b)[i]) < after.ingested by {
            if b != a {
                assert(before.waiting_on(b)[i] < before.ingested);
            } else if i < old_list.len() {
                assert(before.waiting_on(b)[i] < before.ingested);
            }
        }
        assert forall|x: int| #[trigger]
            after.parked(x) && FabricState::causal(s.ops[x]) implies after.awaits(x)
            == awaited_count(s.ops[x].args, s.results.dom(), fresh) + occurrences(
            rest,
            x as usize,
        ) by {
            assert(before.parked(x));
        }
        assert forall|x: int, b: int|
            #![trigger after.parked(x), after.waiting_on(b)]
            after.parked(x) && FabricState::causal(s.ops[x]) && 0 <= b < usize::MAX && awaited(
                b as usize,
                s.results.dom(),
                fresh,
            ) implies occurrences(after.waiting_on(b), x as usize) == occurrences(
            s.ops[x].args,
            b as usize,
        ) by {
            assert(before.parked(x));
            assert(occurrences(before.waiting_on(b), x as usize) == occurrences(
                s.ops[x].args,
                b as usize,
            ));
            if b == a {
                lemma_occurrences_push(old_list, k, x as usize);
            }
        }
    }

    /// Putting an operation among the waiting ones, once it is recorded with
    /// each result that it awaits and holds their number, leaves the counts
    /// in agreement
    proof fn lemma_counted_after_park(
        before: Executor,
        after: Executor,
        s: FabricState,
        k: OperationId,
    )
        requires
            before.counted(s, Seq::empty(), Seq::empty()),
            !before.parked(k as int),
            k < before.ingested,
            after.parked(k as int),
            FabricState::causal(s.ops[k as int]) ==> after.awaits(k as int) == awaited_count(
                s.ops[k as int].args,
                s.results.dom(),
                Seq::empty(),
            ),
            forall|a: int|
                0 <= a < usize::MAX && !s.results.dom().contains(a) ==> occurrences(
                    #[trigger] before.waiting_on(a),
                    k,
                ) == occurrences(s.ops[k as int].args, a as usize),
            after.dependencies == before.dependencies,
            after.ingested == before.ingested,
            after.operations.same_except(&before.operations, k as int),
        ensures
            after.counted(s, Seq::empty(), Seq::empty()),
    {
        reveal(Executor::counted);
        assert forall|a: int, i: int| 0 <= i < after.waiting_on(a).len() implies (
        #[trigger] after.waiting_on(a)[i]) < after.ingested by {
            assert(before.waiting_on(a)[i] < before.ingested);
        }
        assert forall|x: int| #[trigger] after.parked(x) implies 0 <= x < after.ingested by {
            assert(after.operations.entry(x) == before.operations.entry(x) || x == k as int);
            if x != k as int {
                assert(before.parked(x));
            }
        }
        let fresh = Seq::<ResultId>::empty();
        let rest = Seq::<OperationId>::empty();
        let k0 = k as int;
        assert forall|x: int| x != k0 implies after.parked(x) == before.parked(x) && after.awaits(
            x,
        ) == before.awaits(x) by {
            assert(after.operations.entry(x) == before.operations.entry(x));
        }
        assert forall|x: int| #[trigger]
            after.parked(x) && FabricState::causal(s.ops[x]) implies after.awaits(x)
            == awaited_count(s.ops[x].args, s.results.dom(), fresh) + occurrences(
            rest,
            x as usize,
        ) by {
            if x != k0 {
                assert(before.parked(x));
            }
        }
        assert forall|x: int, b: int|
            #![trigger after.parked(x), after.waiting_on(b)]
            after.parked(x) && FabricState::causal(s.ops[x]) && 0 <= b < usize::MAX && awaited(
                b as usize,
                s.results.dom(),
                fresh,
            ) implies occurrences(after.waiting_on(b), x as usize) == occurrences(
            s.ops[x].args,
            b as usize,
        ) by {
            if x != k0 {
                assert(before.parked(x));
                assert(occurrences(before.waiting_on(b), x as usize) == occurrences(
                    s.ops[x].args,
                    b as usize,
                ));
            } else {
                assert(!s.results.dom().contains(b));
                assert(occurrences(before.waiting_on(b), k) == occurrences(
                    s.ops[k0].args,
                    b as usize,
                ));
            }
        }
    }

    /// Once the execution queue is empty, every operation whose arguments are
    /// resident has had its effect
    pub proof fn lemma_quiescent(&self, s: FabricState)
        requires
            self.wf(s),
            s.queue.len() == 0,
        ensures
            s.quiescent(),
    {
        reveal(Executor::inv);
        assert(s.queued_ops().len() == 0);
        assert(s.ops.subrange(self.ingested as int, s.ops.len() as int).len() == s.ops.len()
            - self.ingested);
        assert forall|k: int|
            0 <= k < s.ops.len() && FabricState::causal(#[trigger] s.ops[k]) && s.args_complete(
                s.ops[k],
            ) implies s.effected(s.ops[k]) by {
            if self.parked(k) {
                assert(!Seq::<OperationId>::empty().contains(k as usize));
            }
        }
    }

    /// Take in a result that arrived from the peer. If it is one that the
    /// fabric awaits from the peer and that is not resident yet, it becomes
    /// resident, and the operations that waited for it are evaluated. If it
    /// has not been allocated yet, the value is held until it is. Any other is
    /// dropped: no result is overwritten, and none that the fabric produces
    /// itself is taken from the peer.
    fn handle_new_result(&mut self, fabric: &mut FabricInner, result: OpResult)
        requires
            old(fabric).wf(),
            old(fabric)@.results_sound(),
            old(self).wf(old(fabric)@),
        ensures
            final(fabric).wf(),
            final(fabric)@.results_sound(),
            final(fabric)@.evolves_from(old(fabric)@),
            final(fabric)@.queue == old(fabric)@.queue,
            final(fabric)@.fulfilled_from(
                old(fabric)@,
                seq![MessageView::Result(result.id, result.value@)],
            ),
            final(fabric)@.delivered(
                old(fabric)@,
                seq![MessageView::Result(result.id, result.value@)],
            ),
            final(self).wf(final(fabric)@),
            final(fabric)@.stopped == old(fabric)@.stopped,
    {
        let id = result.id;
        let ghost message = MessageView::Result(result.id, result.value@);
        let ghost entry = fabric@;
        proof {
            fabric.lemma_wf_graph();
            lemma_quiet_frame(entry, entry);
            assert forall|other: int| #[trigger] first_value(seq![message], other) is Some implies other
                == id && first_value(seq![message], other) == Some(result.value@) by {
                lemma_first_value_single(message, other);
            }
        }
        match fabric.kind(id) {
            Some(SlotKind::Inbound) => {
                if !fabric.is_complete(id) {
                    let ghost s0 = fabric@;
                    proof {
                        fabric.lemma_wf_graph();
                        lemma_sound_after_fulfil(s0, id as int, result.value@);
                        self.lemma_inv_after_fulfil(
                            s0,
                            Seq::empty(),
                            -1,
                            Seq::empty(),
                            id,
                            result.value@,
                        );
                        self.lemma_counted_after_fulfil(
                            s0,
                            Seq::empty(),
                            Seq::empty(),
                            id,
                            result.value@,
                        );
                        self.lemma_unsent_state(s0, s0.fulfilled(id as int, result.value@), -1);
                    }
                    fabric.fulfil(id, result.value);
                    let mut fresh: Vec<ResultId> = Vec::new();
                    fresh.push(id);
                    let ghost s1 = fabric@;
                    proof {
                        assert(fresh@ =~= Seq::<ResultId>::empty().push(id));
                        lemma_fulfilled_evolves(s0, id as int, result.value@);
                    }
                    self.propagate(fabric, fresh);
                    proof {
                        lemma_evolves_transitive(s0, s1, fabric@);
                        assert(seq![message][0] == message);
                        assert(s1.fulfilled_from(s0, seq![message]));
                        lemma_fulfilled_compose(
                            fabric@,
                            s1,
                            s0,
                            Seq::empty(),
                            seq![message],
                            seq![message],
                        );
                        assert(s1.results.dom().contains(id as int));
                    }
                }
            },
            Some(_) => {},
            None => {
                // The result is not allocated yet: the value is held until it is
                if id < usize::MAX {
                    fabric.hold_early(id, result.value);
                    proof {
                        self.lemma_wf_frame(entry, fabric@);
                        lemma_sound_frame(entry, fabric@);
                        lemma_quiet_frame(entry, fabric@);
                    }
                }
            },
        }
    }

    /// Take in a newly declared operation: evaluate it if its arguments are
    /// resident; if they are not, count those that it awaits, and record it
    /// as waiting for each of them
    fn handle_new_operation(&mut self, fabric: &mut FabricInner, op: Operation)
        requires
            old(fabric).wf(),
            old(fabric)@.results_sound(),
            old(self).inv(old(fabric)@, Seq::empty(), op.id as int, Seq::empty()),
            old(self).counted(old(fabric)@, Seq::empty(), Seq::empty()),
            old(self).unsent(old(fabric)@, op.id as int),
            forall|a: int| occurrences(#[trigger] old(self).waiting_on(a), op.id) == 0,
            op.id < old(self).ingested,
            !old(self).parked(op.id as int),
            op@ == old(fabric)@.ops[op.id as int],
            !(op.op_type is Network) ==> forall|j: int|
                0 <= j < op.output_arity ==> !old(fabric)@.results.dom().contains(
                    #[trigger] output_id(op@, j),
                ),
        ensures
            final(fabric).wf(),
            final(fabric)@.results_sound(),
            final(fabric)@.evolves_from(old(fabric)@),
            final(fabric)@.queue == old(fabric)@.queue,
            final(fabric)@.early == old(fabric)@.early,
            final(fabric)@.fulfilled_from(old(fabric)@, Seq::empty()),
            final(self).wf(final(fabric)@),
            final(fabric)@.stopped == old(fabric)@.stopped,
    {
        let mut op = op;
        let ghost s0 = fabric@;
        let ghost k = op.id;
        let ghost decl = op@;
        proof {
            fabric.lemma_wf_graph();
            self.lemma_inv_bounds(s0, Seq::empty(), k as int, Seq::empty());
            assert(FabricState::op_wf(s0.ops[k as int], k as int, s0.next_result_id));
            lemma_quiet_frame(s0, s0);
        }
        match collect_inputs(fabric, &op) {
            Some(inputs) => {
                let mut fresh: Vec<ResultId> = Vec::new();
                self.execute_operation(fabric, &op, inputs, &mut fresh, Ghost(Seq::empty()));
                let ghost s1 = fabric@;
                self.propagate(fabric, fresh);
                proof {
                    lemma_evolves_transitive(s0, s1, fabric@);
                    lemma_fulfilled_compose(
                        fabric@,
                        s1,
                        s0,
                        Seq::empty(),
                        Seq::empty(),
                        Seq::empty(),
                    );
                }
            },
            None => {
                // Count the arguments that are not resident, and record the
                // operation with each of them
                let mut inflight: usize = 0;
                let mut j: usize = 0;
                proof {
                    assert(op.args@.take(0) =~= Seq::<ResultId>::empty());
                }
                while j < op.args.len()
                    invariant
                        j <= op.args@.len(),
                        inflight <= j,
                        inflight == awaited_count(
                            op.args@.take(j as int),
                            s0.results.dom(),
                            Seq::empty(),
                        ),
                        fabric.wf(),
                        fabric@ == s0,
                        op@ == decl,
                        k == op.id,
                        k < self.ingested,
                        !self.parked(k as int),
                        self.inv(s0, Seq::empty(), k as int, Seq::empty()),
                        self.counted(s0, Seq::empty(), Seq::empty()),
                        self.unsent(s0, k as int),
                        self.ingested == old(self).ingested,
                        fabric@.stopped == old(fabric)@.stopped,
                        self.operations == old(self).operations,
                        forall|a: int|
                            0 <= a < usize::MAX && !s0.results.dom().contains(a) ==> occurrences(
                                #[trigger] self.waiting_on(a),
                                k,
                            ) == occurrences(op.args@.take(j as int), a as usize),
                        forall|i: int|
                            0 <= i < j && op.args@[i] < usize::MAX && !s0.results.dom().contains(
                                #[trigger] op.args@[i] as int,
                            ) ==> self.waiting_on(op.args@[i] as int).contains(k),
                    decreases op.args@.len() - j,
                {
                    let a = op.args[j];
                    let ghost seen = op.args@.take(j as int);
                    let ghost entry = *self;
                    proof {
                        assert(op.args@.take(j + 1) =~= seen.push(a));
                        assert(seen.push(a).drop_last() =~= seen);
                    }
                    if !fabric.is_complete(a) {
                        inflight += 1;
                        if a < usize::MAX {
                            let ghost before = *self;
                            let mut list = match self.dependencies.take(a) {
                                Some(list) => list,
                                None => Vec::new(),
                            };
                            list.push(op.id);
                            self.dependencies.insert(a, list);
                            proof {
                                assert forall|b: int| b != a implies #[trigger] self.dependencies.entry(
                                    b,
                                ) == before.dependencies.entry(b) by {}
                                Executor::lemma_inv_after_record(
                                    before,
                                    *self,
                                    s0,
                                    k as int,
                                    a,
                                    k,
                                );
                                Executor::lemma_counted_after_record(before, *self, s0, a, k);
                                Executor::lemma_unsent_same(before, *self, s0, k as int, k as int);
                                assert forall|i: int|
                                    0 <= i < j + 1 && op.args@[i] < usize::MAX
                                        && !s0.results.dom().contains(
                                        #[trigger] op.args@[i] as int,
                                    ) implies self.waiting_on(op.args@[i] as int).contains(k) by {
                                    if i < j {
                                        assert(before.waiting_on(op.args@[i] as int).contains(k));
                                    }
                                }
                            }
                        }
                    }
                    proof {
                        assert forall|b: int|
                            0 <= b < usize::MAX && !s0.results.dom().contains(
                                b,
                            ) implies occurrences(#[trigger] self.waiting_on(b), k) == occurrences(
                            op.args@.take(j + 1),
                            b as usize,
                        ) by {
                            assert(occurrences(entry.waiting_on(b), k) == occurrences(
                                seen,
                                b as usize,
                            ));
                            lemma_occurrences_push(seen, a, b as usize);
                        }
                    }
                    j += 1;
                }
                proof {
                    assert(op.args@.take(op.args@.len() as int) =~= op.args@);
                }
                op.inflight_args = inflight;
                let ghost parked = op@;
                let ghost before = *self;
                let id = op.id;
                self.operations.insert(id, op);
                proof {
                    assert(parked.declared() == s0.ops[k as int]);
                    assert(parked.args =~= decl.args);
                    assert forall|i: int|
                        0 <= i < s0.ops[k as int].output_arity && !(s0.ops[k as int].op_type
                            is Network) implies !s0.results.dom().contains(
                        #[trigger] output_id(s0.ops[k as int], i),
                    ) by {
                        assert(!s0.results.dom().contains(output_id(decl, i)));
                    }
                    Executor::lemma_inv_after_park(before, *self, s0, k, parked);
                    Executor::lemma_counted_after_park(before, *self, s0, k);
                    Executor::lemma_unsent_after_park(before, *self, s0, k);
                }
            },
        }
    }

    /// Handle the oldest message on the execution queue, if there is one and
    /// the executor has not shut down. Returns whether a message was handled.
    pub fn step(&mut self, fabric: &mut FabricInner) -> (handled: bool)
        requires
            old(fabric).wf(),
            old(fabric)@.results_sound(),
            old(self).wf(old(fabric)@),
        ensures
            final(fabric).wf(),
            final(fabric)@.results_sound(),
            final(fabric)@.evolves_from(old(fabric)@),
            final(self).wf(final(fabric)@),
            handled <==> (!old(fabric)@.stopped && old(fabric)@.queue.len() > 0),
            handled ==> final(fabric)@.queue == old(fabric)@.queue.drop_first(),
            handled ==> final(fabric)@.fulfilled_from(old(fabric)@, seq![old(fabric)@.queue[0]]),
            handled ==> final(fabric)@.delivered(old(fabric)@, seq![old(fabric)@.queue[0]]),
            !handled ==> final(fabric)@ == old(fabric)@ && final(fabric)@.stopped == old(fabric)@.stopped,
            handled && !(old(fabric)@.queue[0] is Shutdown) ==> final(fabric)@.stopped == old(fabric)@.stopped,
            handled && old(fabric)@.queue[0] is Shutdown ==> final(fabric)@.stopped,
    {
        if fabric.is_stopped() {
            proof {
                lemma_quiet_frame(fabric@, fabric@);
            }
            return false;
        }
        let ghost s0 = fabric@;
        let ghost before = *self;
        proof {
            fabric.lemma_wf_graph();
            lemma_quiet_frame(s0, s0);
            lemma_quiet_frame(s0, s0.popped());
        }
        match fabric.pop_message() {
            None => false,
            Some(ExecutorMessage::Result(result)) => {
                proof {
                    self.lemma_inv_after_pop_other(s0);
                    lemma_sound_keeps(s0, s0.popped());
                }
                self.handle_new_result(fabric, result);
                proof {
                    lemma_evolves_transitive(s0, s0.popped(), fabric@);
                    assert(s0.popped().early == s0.early);
                    lemma_fulfilled_compose(
                        fabric@,
                        s0.popped(),
                        s0,
                        seq![s0.queue[0]],
                        Seq::empty(),
                        seq![s0.queue[0]],
                    );
                }
                true
            },
            Some(ExecutorMessage::Op(op)) => {
                proof {
                    before.lemma_queued_op_bound(s0);
                }
                self.ingested = self.ingested + 1;
                proof {
                    Executor::lemma_inv_after_pop_op(before, *self, s0);
                    Executor::lemma_counted_after_pop_op(before, *self, s0);
                    Executor::lemma_unsent_same(before, *self, s0, -1, before.ingested as int);
                    self.lemma_unsent_state(s0, s0.popped(), before.ingested as int);
                    lemma_sound_keeps(s0, s0.popped());
                    assert(op@ == s0.ops[before.ingested as int]);
                    assert(FabricState::op_wf(
                        s0.ops[before.ingested as int],
                        before.ingested as int,
                        s0.next_result_id,
                    ));
                }
                self.handle_new_operation(fabric, op);
                proof {
                    lemma_evolves_transitive(s0, s0.popped(), fabric@);
                    assert forall|id: int| first_value(seq![s0.queue[0]], id) is None by {
                        lemma_first_value_single(s0.queue[0], id);
                    }
                    lemma_fulfilled_compose(
                        fabric@,
                        s0.popped(),
                        s0,
                        Seq::empty(),
                        Seq::empty(),
                        seq![s0.queue[0]],
                    );
                }
                true
            },
            Some(ExecutorMessage::Shutdown) => {
                proof {
                    self.lemma_inv_after_pop_other(s0);
                    lemma_sound_keeps(s0, s0.popped());
                }
                fabric.halt();
                proof {
                    assert forall|id: int| first_value(seq![s0.queue[0]], id) is None by {
                        lemma_first_value_single(s0.queue[0], id);
                    }
                    self.lemma_wf_frame(s0.popped(), fabric@);
                    lemma_sound_keeps(s0.popped(), fabric@);
                    lemma_quiet_frame(s0, fabric@);
                }
                true
            },
        }
    }

    /// Handle the messages on the execution queue, the oldest first, until
    /// the queue is empty or the executor is told to shut down. Every value
    /// from the peer among the messages is taken in, and every operation
    /// whose arguments are resident is evaluated.
    pub fn run(&mut self, fabric: &mut FabricInner)
        requires
            old(fabric).wf(),
            old(fabric)@.results_sound(),
            old(self).wf(old(fabric)@),
        ensures
            final(fabric).wf(),
            final(fabric)@.results_sound(),
            final(fabric)@.evolves_from(old(fabric)@),
            final(self).wf(final(fabric)@),
            final(fabric)@.stopped || final(fabric)@.queue.len() == 0,
            !final(fabric)@.stopped ==> final(fabric)@.quiescent(),
            old(fabric)@.stopped ==> final(fabric)@ == old(fabric)@ && final(fabric)@.stopped,
            !old(fabric)@.stopped ==> final(fabric)@.queue == old(fabric)@.queue.skip(
                handled_len(old(fabric)@.queue) as int,
            ),
            !old(fabric)@.stopped ==> (final(fabric)@.stopped <==> handled_len(
                old(fabric)@.queue,
            ) > 0 && old(fabric)@.queue[handled_len(old(fabric)@.queue) - 1] is Shutdown),
            !old(fabric)@.stopped ==> final(fabric)@.fulfilled_from(
                old(fabric)@,
                old(fabric)@.queue.take(handled_len(old(fabric)@.queue) as int),
            ),
            !old(fabric)@.stopped ==> final(fabric)@.delivered(
                old(fabric)@,
                old(fabric)@.queue.take(handled_len(old(fabric)@.queue) as int),
            ),
    {
        let ghost s0 = fabric@;
        let ghost total = handled_len(s0.queue) as int;
        let ghost handled_count: int = 0;
        proof {
            fabric.lemma_wf_graph();
            assert(s0.queue.skip(0) =~= s0.queue);
            assert(s0.queue.take(0) =~= Seq::<MessageView>::empty());
            lemma_handled_len_bound(s0.queue);
            lemma_quiet_frame(s0, s0);
        }
        loop
            invariant
                fabric.wf(),
                fabric@.results_sound(),
                fabric@.evolves_from(s0),
                self.wf(fabric@),
                s0.graph_wf(),
                total == handled_len(s0.queue),
                old(fabric)@.stopped ==> fabric@ == s0 && fabric@.stopped,
                0 <= handled_count <= total <= s0.queue.len(),
                fabric@.queue == s0.queue.skip(handled_count),
                !fabric@.stopped ==> handled_count + handled_len(fabric@.queue) == total,
                !fabric@.stopped && handled_count > 0 ==> !(s0.queue[handled_count - 1]
                    is Shutdown),
                fabric@.stopped && !old(fabric)@.stopped ==> handled_count == total && total
                    > 0 && s0.queue[total - 1] is Shutdown,
                fabric@.fulfilled_from(s0, s0.queue.take(handled_count)),
                fabric@.delivered(s0, s0.queue.take(handled_count)),
            ensures
                fabric@.stopped || fabric@.queue.len() == 0,
            decreases fabric@.queue.len(),
        {
            let ghost s1 = fabric@;
            let handled = self.step(fabric);
            if !handled {
                break ;
            }
            proof {
                let message = s1.queue[0];
                let before = s0.queue.take(handled_count);
                let after = s0.queue.take(handled_count + 1);
                assert(message == s0.queue[handled_count]);
                assert(s1.queue.drop_first() =~= s0.queue.skip(handled_count + 1));
                assert(after =~= before.push(message));
                assert(seq![message][0] == message);
                assert forall|i: int| 0 <= i < before.len() implies after.contains(
                    #[trigger] before[i],
                ) by {
                    assert(after[i] == before[i]);
                }
                assert(after[handled_count] == message);
                lemma_fulfilled_compose(fabric@, s1, s0, seq![message], before, after);
                lemma_delivered_compose(fabric@, s1, s0, before, message);
                lemma_evolves_transitive(s0, s1, fabric@);
                handled_count = handled_count + 1;
            }
        }
        proof {
            if !fabric@.stopped {
                self.lemma_quiescent(fabric@);
                assert(handled_len(fabric@.queue) == 0);
            }
        }
    }

    /// A change of the state that touches neither the graph, the results nor
    /// the operations on the queue leaves the records in agreement
    pub proof fn lemma_wf_frame(&self, s: FabricState, t: FabricState)
        requires
            self.wf(s),
            t.results == s.results,
            t.kinds == s.kinds,
            t.ops == s.ops,
            t.next_result_id == s.next_result_id,
            t.queued_ops() == s.queued_ops(),
            t.sent_log == s.sent_log,
            t.failed == s.failed,
        ensures
            self.wf(t),
    {
        reveal(Executor::inv);
        reveal(Executor::counted);
        self.lemma_unsent_state(s, t, -1);
        let fresh = Seq::<ResultId>::empty();
        let rest = Seq::<OperationId>::empty();
        assert forall|k: int|
            0 <= k < self.ingested && k != -1 && !(#[trigger] self.parked(
                k,
            )) implies t.args_complete(t.ops[k]) && t.effected(t.ops[k]) by {
            lemma_effect_frame(s, t, s.ops[k]);
        }
        assert forall|k: int| #[trigger]
            self.parked(k) && FabricState::causal(t.ops[k]) && t.args_complete(
                t.ops[k],
            ) implies rest.contains(k as usize) || exists|j: int|
            0 <= j < t.ops[k].args.len() && fresh.contains(#[trigger] t.ops[k].args[j]) by {
            assert(s.args_complete(s.ops[k]));
        }
    }

    /// Allocating a value leaves the records in agreement
    pub proof fn lemma_wf_after_allocate(&self, s: FabricState, value: Value)
        requires
            self.wf(s),
            s.graph_wf(),
            s.next_result_id < usize::MAX,
        ensures
            self.wf(s.allocate(value)),
    {
        reveal(Executor::inv);
        reveal(Executor::counted);
        self.lemma_unsent_state(s, s.allocate(value), -1);
        let t = s.allocate(value);
        let fresh = Seq::<ResultId>::empty();
        let rest = Seq::<OperationId>::empty();
        let id = s.next_result_id;
        assert forall|k: int| #[trigger]
            self.parked(k) && FabricState::causal(t.ops[k]) implies self.awaits(k)
            == awaited_count(t.ops[k].args, t.results.dom(), fresh) + occurrences(
            rest,
            k as usize,
        ) by {
            let op = s.ops[k];
            assert(FabricState::op_wf(op, k, s.next_result_id));
            assert forall|j: int| 0 <= j < op.args.len() implies awaited(
                #[trigger] op.args[j],
                s.results.dom(),
                fresh,
            ) == awaited(op.args[j], t.results.dom(), fresh) by {
                assert(op.args[j] < op.result_id);
            }
            lemma_awaited_same(op.args, s.results.dom(), fresh, t.results.dom(), fresh);
        }
        assert forall|k: int|
            0 <= k < self.ingested && k != -1 && !(#[trigger] self.parked(
                k,
            )) implies t.args_complete(t.ops[k]) && t.effected(t.ops[k]) by {
            lemma_allocate_keeps(s, value, s.ops[k]);
        }
        assert forall|k: int| #[trigger]
            self.parked(k) && FabricState::causal(t.ops[k]) && t.args_complete(
                t.ops[k],
            ) implies rest.contains(k as usize) || exists|j: int|
            0 <= j < t.ops[k].args.len() && fresh.contains(#[trigger] t.ops[k].args[j]) by {
            let op = s.ops[k];
            assert(FabricState::op_wf(s.ops[k], k, s.next_result_id));
            assert forall|j: int| 0 <= j < op.args.len() implies s.results.dom().contains(
                #[trigger] op.args[j] as int,
            ) by {
                assert(t.results.dom().contains(op.args[j] as int));
                assert(op.args[j] < op.result_id);
            }
            assert(s.args_complete(op));
        }
        assert forall|i: int|
            0 <= i < t.kinds.len() && #[trigger] t.results.dom().contains(i) implies (
        t.kinds[i] matches SlotKind::Gate { op, index } ==> op < self.ingested && !self.parked(
            op as int,
        )) by {
            if i != id {
                assert(s.results.dom().contains(i));
            }
        }
    }

    /// Allocating a value, and handing the peer its share of it under the same
    /// id, leaves the records in agreement
    pub proof fn lemma_wf_after_share(&self, s: FabricState, my_share: Value, their_share: Value)
        requires
            self.wf(s),
            s.graph_wf(),
            s.next_result_id < usize::MAX,
        ensures
            self.wf(s.allocate_shared(my_share, their_share)),
    {
        reveal(Executor::inv);
        let id = s.next_result_id as usize;
        let middle = s.allocate(my_share);
        let t = s.allocate_shared(my_share, their_share);
        self.lemma_wf_after_allocate(s, my_share);
        assert(t == middle.sent(id, their_share));
        self.lemma_inv_after_sent(middle, Seq::empty(), -1, Seq::empty(), id, their_share);
        self.lemma_counted_after_sent(middle, Seq::empty(), Seq::empty(), id, their_share);
        reveal(Executor::unsent);
        assert forall|k: int|
            0 <= k < t.ops.len() && self.outstanding(k, -1) && (#[trigger] t.ops[k]).op_type
                is Network implies t.unsent(t.ops[k].result_id as int) by {
            assert(middle.unsent(middle.ops[k].result_id as int));
            assert(FabricState::op_wf(s.ops[k], k, s.next_result_id));
            assert forall|i: int| 0 <= i < t.sent_log.len() implies (#[trigger] t.sent_log[i]).result_id
                != t.ops[k].result_id as int by {
                if i < middle.sent_log.len() {
                    assert(t.sent_log[i] == middle.sent_log[i]);
                }
            }
        }
    }

    /// Allocating a slot for a value from the peer leaves the records in
    /// agreement
    pub proof fn lemma_wf_after_receive(&self, s: FabricState)
        requires
            self.wf(s),
            s.graph_wf(),
            s.next_result_id < usize::MAX,
        ensures
            self.wf(s.receive()),
    {
        reveal(Executor::inv);
        reveal(Executor::counted);
        self.lemma_unsent_state(s, s.with_slot(), -1);
        let t = s.with_slot();
        let fresh = Seq::<ResultId>::empty();
        let rest = Seq::<OperationId>::empty();
        assert forall|k: int|
            0 <= k < self.ingested && k != -1 && !(#[trigger] self.parked(
                k,
            )) implies t.args_complete(t.ops[k]) && t.effected(t.ops[k]) by {
            lemma_effect_frame(s, t, s.ops[k]);
        }
        assert forall|k: int| #[trigger]
            self.parked(k) && FabricState::causal(t.ops[k]) && t.args_complete(
                t.ops[k],
            ) implies rest.contains(k as usize) || exists|j: int|
            0 <= j < t.ops[k].args.len() && fresh.contains(#[trigger] t.ops[k].args[j]) by {
            assert(s.args_complete(s.ops[k]));
        }
        assert forall|i: int|
            0 <= i < t.kinds.len() && #[trigger] t.results.dom().contains(i) implies (
        t.kinds[i] matches SlotKind::Gate { op, index } ==> op < self.ingested && !self.parked(
            op as int,
        )) by {
            assert(s.results.dom().contains(i));
            assert(i < s.kinds.len());
        }
        self.lemma_wf_after_claim(t, s.next_result_id);
    }

    /// Putting the value that is held for a result on the execution queue
    /// leaves the records in agreement
    pub proof fn lemma_wf_after_claim(&self, s: FabricState, id: int)
        requires
            self.wf(s),
        ensures
            self.wf(s.claimed(id)),
    {
        reveal(Executor::inv);
        if s.early.dom().contains(id) {
            let message = MessageView::Result(id as usize, s.early[id]);
            assert(s.queue.push(message).drop_last() =~= s.queue);
            self.lemma_wf_frame(s, s.claimed(id));
        }
    }

    /// Declaring an operation leaves the records in agreement
    pub proof fn lemma_wf_after_op(
        &self,
        s: FabricState,
        args: Seq<ResultId>,
        arity: int,
        op_type: OperationType,
    )
        requires
            self.wf(s),
            s.graph_wf(),
            arity >= 1,
            s.next_result_id + arity <= usize::MAX,
            s.next_op_id < usize::MAX,
        ensures
            self.wf(s.with_op(args, arity, op_type)),
    {
        reveal(Executor::inv);
        reveal(Executor::counted);
        let t = s.with_declared(args, arity, op_type);
        assert(self.unsent(t, -1)) by {
            reveal(Executor::unsent);
            reveal(FabricState::sends_allocated);
            reveal(FabricState::next_op);
            assert forall|k: int|
                0 <= k < t.ops.len() && self.outstanding(k, -1) && (#[trigger] t.ops[k]).op_type
                    is Network implies t.unsent(t.ops[k].result_id as int) by {
                if k < s.ops.len() {
                    assert(t.ops[k] == s.ops[k]);
                    assert(s.unsent(s.ops[k].result_id as int));
                }
            }
        }
        let fresh = Seq::<ResultId>::empty();
        let rest = Seq::<OperationId>::empty();
        let declared = s.next_op(args, arity, op_type);
        assert(s.queue.push(MessageView::Op(declared)).drop_last() =~= s.queue);
        assert(t.queued_ops() =~= t.ops.subrange(self.ingested as int, t.ops.len() as int));
        assert forall|k: int| 0 <= k < s.ops.len() implies t.ops[k] == s.ops[k] by {}
        assert forall|k: int|
            0 <= k < self.ingested && k != -1 && !(#[trigger] self.parked(
                k,
            )) implies t.args_complete(t.ops[k]) && t.effected(t.ops[k]) by {
            lemma_effect_frame(s, t, s.ops[k]);
        }
        assert forall|k: int| #[trigger]
            self.parked(k) && FabricState::causal(t.ops[k]) && t.args_complete(
                t.ops[k],
            ) implies rest.contains(k as usize) || exists|j: int|
            0 <= j < t.ops[k].args.len() && fresh.contains(#[trigger] t.ops[k].args[j]) by {
            assert(s.args_complete(s.ops[k]));
        }
        assert forall|i: int|
            0 <= i < t.kinds.len() && #[trigger] t.results.dom().contains(i) implies (
        t.kinds[i] matches SlotKind::Gate { op, index } ==> op < self.ingested && !self.parked(
            op as int,
        )) by {
            assert(s.results.dom().contains(i));
            assert(i < s.kinds.len());
            assert(t.kinds[i] == s.kinds[i]);
        }
        self.lemma_wf_after_claim(t, s.next_result_id);
    }
}

} // verus!
