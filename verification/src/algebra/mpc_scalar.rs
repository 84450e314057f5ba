//! Additively shared scalars: each party holds a share, and the shares add
//! up to the value. Operations on shared values declare gates on the shares;
//! only opening a value and multiplying two shared values exchange messages
//! with the peer.

use vstd::prelude::*;

use crate::algebra::scalar::Scalar;
use crate::algebra::scalar::ScalarResult;
use crate::beaver::SharedValueSource;
use crate::fabric::gate::BatchGateFunction;
use crate::fabric::gate::Constant;
use crate::fabric::gate::GateFunction;
use crate::fabric::gate::NetworkFunction;
use crate::fabric::result::range_ids;
use crate::fabric::result::ResultId;
use crate::fabric::result::Value;
use crate::fabric::FabricState;
use crate::fabric::MpcFabric;
use crate::PARTY0;

verus! {

impl FabricState {
    /// The state after a shared value has been opened: the parties exchange
    /// their shares, and a gate adds the first party's share to the other's.
    /// The opened value is the last of the three results declared.
    #[verifier::opaque]
    pub open spec fn opened(self, share: ResultId) -> FabricState {
        let peer = self.exchanged_id() as usize;
        let exchanged = self.exchange(seq![share], NetworkFunction::SendArgument);
        if self.party_id == PARTY0 {
            exchanged.with_gate(seq![share, peer], GateFunction::Add)
        } else {
            exchanged.with_gate(seq![peer, share], GateFunction::Add)
        }
    }

    /// The state after a batch of shared values has been opened: the parties
    /// exchange their shares in one message each, and one gate adds them up.
    /// The opened values are the results of this last gate.
    #[verifier::opaque]
    pub open spec fn opened_batch(self, shares: Seq<ResultId>, send: NetworkFunction)
        -> FabricState {
        if shares.len() == 0 {
            self
        } else {
            self.exchange(shares, send).with_batch_gate(
                shares.push(self.exchanged_id() as usize),
                shares.len() as int,
                BatchGateFunction::BatchOpen { party_id: self.party_id },
            )
        }
    }

    /// The state after a public constant has been added to a shared value:
    /// the first party adds the constant to its share, the other passes its
    /// share on, so that both declare one gate
    pub open spec fn share_plus_constant(self, share: ResultId, constant: Constant) -> FabricState {
        if self.party_id == PARTY0 {
            self.with_gate(seq![share], GateFunction::AddConstant(constant))
        } else {
            self.with_gate(seq![share], GateFunction::Pass)
        }
    }

    /// The state after a public constant has been subtracted from a shared
    /// value: the first party subtracts the constant from its share, the other
    /// passes its share on
    pub open spec fn share_minus_constant(self, share: ResultId, constant: Constant)
        -> FabricState {
        if self.party_id == PARTY0 {
            self.with_gate(seq![share], GateFunction::SubConstant(constant))
        } else {
            self.with_gate(seq![share], GateFunction::Pass)
        }
    }

    /// The state after the oldest Beaver triple has been allocated: its three
    /// shares are resident under the next three result ids
    #[verifier::opaque]
    pub open spec fn with_beaver_triple(self) -> FabricState {
        let triple = self.triples[0];
        self.without_triple().allocate(Value::Scalar(triple.0)).allocate(
            Value::Scalar(triple.1),
        ).allocate(Value::Scalar(triple.2))
    }

    /// The state after the `count` oldest Beaver triples have been allocated:
    /// first the first shares of all of them, then the second, then the third
    #[verifier::opaque]
    pub open spec fn with_beaver_triples(self, count: int) -> FabricState {
        let used = FabricState { triples: self.triples.skip(count), ..self };
        used.allocate_all(
            crate::fabric::result::scalar_values(
                Seq::new(count as nat, |i: int| self.triples[i].0),
            ),
        ).allocate_all(
            crate::fabric::result::scalar_values(
                Seq::new(count as nat, |i: int| self.triples[i].1),
            ),
        ).allocate_all(
            crate::fabric::result::scalar_values(
                Seq::new(count as nat, |i: int| self.triples[i].2),
            ),
        )
    }

    /// The state after two batches of shared scalars have been multiplied,
    /// element by element, with one Beaver triple for each product and one
    /// opening for all of the masked values. The products are the last `n` of
    /// the `13 n + 2` results declared.
    #[verifier::opaque]
    pub open spec fn beaver_batch_mul(self, lhs: Seq<ResultId>, rhs: Seq<ResultId>) -> FabricState {
        let n = lhs.len() as int;
        let first = self.next_result_id;
        let party_id = self.party_id;
        let beaver_a = range_ids(first, n);
        let beaver_b = range_ids(first + n, n);
        let beaver_c = range_ids(first + 2 * n, n);
        let masks = range_ids(first + 3 * n, 2 * n);
        let d_open = range_ids(first + 5 * n + 2, n);
        let e_open = range_ids(first + 6 * n + 2, n);
        let de = range_ids(first + 7 * n + 2, n);
        let db = range_ids(first + 8 * n + 2, n);
        let ea = range_ids(first + 9 * n + 2, n);
        let de_db = range_ids(first + 10 * n + 2, n);
        let ea_c = range_ids(first + 11 * n + 2, n);
        if n == 0 {
            self
        } else {
            self.with_beaver_triples(n).with_batch_gate(
                lhs + beaver_a,
                n,
                BatchGateFunction::BatchSub,
            ).with_batch_gate(rhs + beaver_b, n, BatchGateFunction::BatchSub).opened_batch(
                masks,
                NetworkFunction::SendScalarBatch,
            ).with_batch_gate(d_open + e_open, n, BatchGateFunction::BatchMul).with_batch_gate(
                beaver_b + d_open,
                n,
                BatchGateFunction::BatchMul,
            ).with_batch_gate(beaver_a + e_open, n, BatchGateFunction::BatchMul).with_batch_gate(
                db + de,
                n,
                BatchGateFunction::BatchSharePlusPublic { party_id },
            ).with_batch_gate(ea + beaver_c, n, BatchGateFunction::BatchAdd).with_batch_gate(
                de_db + ea_c,
                n,
                BatchGateFunction::BatchAdd,
            )
        }
    }

    /// The state after two shared scalars have been multiplied with a Beaver
    /// triple `(a, b, c)`: the masked values `d = lhs - a` and `e = rhs - b` are
    /// opened, and the product is `d * b + e * a + c + d * e`, the last term
    /// added by the first party alone. The product is the last of the 17
    /// results declared.
    #[verifier::opaque]
    pub open spec fn beaver_mul(self, lhs: ResultId, rhs: ResultId) -> FabricState {
        let n = self.next_result_id;
        let a = n as usize;
        let b = (n + 1) as usize;
        let c = (n + 2) as usize;
        let masked = self.with_beaver_triple().with_gate(seq![lhs, a], GateFunction::Sub).with_gate(
            seq![rhs, b],
            GateFunction::Sub,
        );
        let opened = masked.opened((n + 3) as usize).opened((n + 4) as usize);
        let d = (n + 7) as usize;
        let e = (n + 10) as usize;
        opened.with_gate(seq![d, b], GateFunction::Mul).with_gate(
            seq![e, a],
            GateFunction::Mul,
        ).with_gate(seq![(n + 11) as usize, (n + 12) as usize], GateFunction::Add).with_gate(
            seq![(n + 13) as usize, c],
            GateFunction::Add,
        ).with_gate(seq![d, e], GateFunction::Mul).with_gate(
            seq![(n + 14) as usize, (n + 15) as usize],
            GateFunction::AddPublic { party_id: self.party_id },
        )
    }
}

/// A secret shared scalar: this party's additive share of a value, without a MAC
#[derive(Debug)]
pub struct MpcScalarResult {
    /// The underlying value held by the local party
    pub value: ScalarResult,
}

impl Clone for MpcScalarResult {
    fn clone(&self) -> (r: Self)
        ensures
            r.value.id == self.value.id,
    {
        MpcScalarResult { value: self.value.clone() }
    }
}

impl MpcScalarResult {
    /// Creates an MPC scalar from a given underlying scalar assumed to be a secret share
    pub fn new_shared(value: ScalarResult) -> (r: MpcScalarResult)
        ensures
            r.value.id == value.id,
    {
        MpcScalarResult { value }
    }

    /// Get the id of the underlying share's result
    pub fn id(&self) -> (r: ResultId)
        ensures
            r == self.value.id,
    {
        self.value.id
    }

    /// Opens the value by sharing additive shares with the counterparty
    pub fn open<S: SharedValueSource>(&self, fabric: &mut MpcFabric<S>) -> (r: ScalarResult)
        requires
            old(fabric).wf(),
            old(fabric)@.has_room(3),
        ensures
            final(fabric).wf(),
            r.id == old(fabric)@.next_result_id + 2,
            final(fabric)@ == old(fabric)@.opened(self.value.id),
            final(fabric)@.advanced(old(fabric)@, 3, 2, 0),
    {
        proof {
            reveal(FabricState::opened);
        }
        let peer = fabric.exchange_value(&self.value);
        if fabric.party_id() == PARTY0 {
            fabric.binary_gate(self.value.id, peer.id, GateFunction::Add)
        } else {
            fabric.binary_gate(peer.id, self.value.id, GateFunction::Add)
        }
    }

    /// The ids of the shares of a batch of values
    pub open spec fn share_ids(values: Seq<MpcScalarResult>) -> Seq<ResultId> {
        Seq::new(values.len(), |i: int| values[i].value.id)
    }

    /// Collect the ids of the shares of a batch of values
    pub fn collect_share_ids(values: &[MpcScalarResult]) -> (r: Vec<ResultId>)
        ensures
            r@ == Self::share_ids(values@),
    {
        let mut ids: Vec<ResultId> = Vec::with_capacity(values.len());
        let mut i: usize = 0;
        while i < values.len()
            invariant
                i <= values@.len(),
                ids@.len() == i,
                forall|j: int| 0 <= j < i ==> (#[trigger] ids@[j]) == values@[j].value.id,
            decreases values@.len() - i,
        {
            ids.push(values[i].value.id);
            i += 1;
        }
        assert(ids@ =~= Self::share_ids(values@));
        ids
    }

    /// Shared values over a list of handles to their shares
    pub fn from_handles(handles: Vec<ScalarResult>) -> (r: Vec<MpcScalarResult>)
        ensures
            Self::share_ids(r@) == crate::fabric::result::ids_of(handles@),
            r@.len() == handles@.len(),
            forall|j: int| 0 <= j < r@.len() ==> (#[trigger] r@[j]).value.id == handles@[j].id,
    {
        let mut values: Vec<MpcScalarResult> = Vec::with_capacity(handles.len());
        let mut i: usize = 0;
        while i < handles.len()
            invariant
                i <= handles@.len(),
                values@.len() == i,
                forall|j: int| 0 <= j < i ==> (#[trigger] values@[j]).value.id == handles@[j].id,
            decreases handles@.len() - i,
        {
            values.push(MpcScalarResult { value: handles[i].clone() });
            i += 1;
        }
        assert(Self::share_ids(values@) =~= crate::fabric::result::ids_of(handles@));
        values
    }

    /// Open a batch of values
    pub fn open_batch<S: SharedValueSource>(
        fabric: &mut MpcFabric<S>,
        values: &[MpcScalarResult],
    ) -> (r: Vec<ScalarResult>)
        requires
            old(fabric).wf(),
            old(fabric)@.has_room(values@.len() as int + 2),
        ensures
            final(fabric).wf(),
            final(fabric)@ == old(fabric)@.opened_batch(
                Self::share_ids(values@),
                NetworkFunction::SendScalarBatch,
            ),
            r@.len() == values@.len(),
            values@.len() > 0 ==> crate::fabric::result::ids_of(r@) == range_ids(
                old(fabric)@.next_result_id + 2,
                values@.len() as int,
            ) && final(fabric)@.advanced(old(fabric)@, values@.len() as int + 2, 2, 0),
    {
        proof {
            reveal(FabricState::opened_batch);
        }
        if values.len() == 0 {
            return Vec::new();
        }
        let n = values.len();
        let ids = Self::collect_share_ids(values);
        let mut args = ids.clone();
        let peer = if fabric.party_id() == PARTY0 {
            fabric.new_network_op::<Vec<Scalar>>(ids, NetworkFunction::SendScalarBatch);
            fabric.receive_value::<Vec<Scalar>>()
        } else {
            let handle = fabric.receive_value::<Vec<Scalar>>();
            fabric.new_network_op::<Vec<Scalar>>(ids, NetworkFunction::SendScalarBatch);
            handle
        };
        args.push(peer.id);
        let party_id = fabric.party_id();
        fabric.new_batch_gate_op(args, n, BatchGateFunction::BatchOpen { party_id })
    }

    /// Add two shared values
    pub fn add<S: SharedValueSource>(&self, fabric: &mut MpcFabric<S>, rhs: &MpcScalarResult) -> (r:
        MpcScalarResult)
        requires
            old(fabric).wf(),
            old(fabric)@.has_room(1),
        ensures
            final(fabric).wf(),
            r.value.id == old(fabric)@.next_result_id,
            final(fabric)@ == old(fabric)@.with_gate(
                seq![self.value.id, rhs.value.id],
                GateFunction::Add,
            ),
    {
        MpcScalarResult { value: self.value.add(fabric, &rhs.value) }
    }

    /// Add a public constant to a shared value: the first party adds it to its share
    pub fn add_scalar<S: SharedValueSource>(&self, fabric: &mut MpcFabric<S>, rhs: Scalar) -> (r:
        MpcScalarResult)
        requires
            old(fabric).wf(),
            old(fabric)@.has_room(1),
        ensures
            final(fabric).wf(),
            r.value.id == old(fabric)@.next_result_id,
            final(fabric)@ == old(fabric)@.share_plus_constant(
                self.value.id,
                Constant::Scalar(rhs),
            ),
    {
        if fabric.party_id() == PARTY0 {
            MpcScalarResult { value: self.value.add_scalar(fabric, rhs) }
        } else {
            MpcScalarResult { value: fabric.unary_gate(self.value.id, GateFunction::Pass) }
        }
    }

    /// Add a public result to a shared value: the first party adds it to its share
    pub fn add_result<S: SharedValueSource>(
        &self,
        fabric: &mut MpcFabric<S>,
        rhs: &ScalarResult,
    ) -> (r: MpcScalarResult)
        requires
            old(fabric).wf(),
            old(fabric)@.has_room(1),
        ensures
            final(fabric).wf(),
            r.value.id == old(fabric)@.next_result_id,
            final(fabric)@ == old(fabric)@.with_gate(
                seq![self.value.id, rhs.id],
                GateFunction::AddPublic { party_id: old(fabric)@.party_id },
            ),
    {
        let party_id = fabric.party_id();
        MpcScalarResult {
            value: fabric.binary_gate(self.value.id, rhs.id, GateFunction::AddPublic { party_id }),
        }
    }

    /// Subtract a shared value from another
    pub fn sub<S: SharedValueSource>(&self, fabric: &mut MpcFabric<S>, rhs: &MpcScalarResult) -> (r:
        MpcScalarResult)
        requires
            old(fabric).wf(),
            old(fabric)@.has_room(1),
        ensures
            final(fabric).wf(),
            r.value.id == old(fabric)@.next_result_id,
            final(fabric)@ == old(fabric)@.with_gate(
                seq![self.value.id, rhs.value.id],
                GateFunction::Sub,
            ),
    {
        MpcScalarResult { value: self.value.sub(fabric, &rhs.value) }
    }

    /// Subtract a public constant from a shared value: the first party
    /// subtracts it from its share
    pub fn sub_scalar<S: SharedValueSource>(&self, fabric: &mut MpcFabric<S>, rhs: Scalar) -> (r:
        MpcScalarResult)
        requires
            old(fabric).wf(),
            old(fabric)@.has_room(1),
        ensures
            final(fabric).wf(),
            r.value.id == old(fabric)@.next_result_id,
            final(fabric)@ == old(fabric)@.share_minus_constant(
                self.value.id,
                Constant::Scalar(rhs),
            ),
    {
        if fabric.party_id() == PARTY0 {
            MpcScalarResult { value: self.value.sub_scalar(fabric, rhs) }
        } else {
            MpcScalarResult { value: fabric.unary_gate(self.value.id, GateFunction::Pass) }
        }
    }

    /// Subtract a public result from a shared value: the first party
    /// subtracts it from its share
    pub fn sub_result<S: SharedValueSource>(
        &self,
        fabric: &mut MpcFabric<S>,
        rhs: &ScalarResult,
    ) -> (r: MpcScalarResult)
        requires
            old(fabric).wf(),
            old(fabric)@.has_room(1),
        ensures
            final(fabric).wf(),
            r.value.id == old(fabric)@.next_result_id,
            final(fabric)@ == old(fabric)@.with_gate(
                seq![self.value.id, rhs.id],
                GateFunction::SubPublic { party_id: old(fabric)@.party_id },
            ),
    {
        let party_id = fabric.party_id();
        MpcScalarResult {
            value: fabric.binary_gate(self.value.id, rhs.id, GateFunction::SubPublic { party_id }),
        }
    }

    /// Negate a shared value
    pub fn neg<S: SharedValueSource>(&self, fabric: &mut MpcFabric<S>) -> (r: MpcScalarResult)
        requires
            old(fabric).wf(),
            old(fabric)@.has_room(1),
        ensures
            final(fabric).wf(),
            r.value.id == old(fabric)@.next_result_id,
            final(fabric)@ == old(fabric)@.with_gate(seq![self.value.id], GateFunction::Neg),
    {
        MpcScalarResult { value: self.value.neg(fabric) }
    }

    /// Multiply a shared value by a public constant
    pub fn mul_scalar<S: SharedValueSource>(&self, fabric: &mut MpcFabric<S>, rhs: Scalar) -> (r:
        MpcScalarResult)
        requires
            old(fabric).wf(),
            old(fabric)@.has_room(1),
        ensures
            final(fabric).wf(),
            r.value.id == old(fabric)@.next_result_id,
            final(fabric)@ == old(fabric)@.with_gate(
                seq![self.value.id],
                GateFunction::MulConstant(Constant::Scalar(rhs)),
            ),
    {
        MpcScalarResult { value: self.value.mul_scalar(fabric, rhs) }
    }

    /// Multiply a shared value by a public result
    pub fn mul_result<S: SharedValueSource>(
        &self,
        fabric: &mut MpcFabric<S>,
        rhs: &ScalarResult,
    ) -> (r: MpcScalarResult)
        requires
            old(fabric).wf(),
            old(fabric)@.has_room(1),
        ensures
            final(fabric).wf(),
            r.value.id == old(fabric)@.next_result_id,
            final(fabric)@ == old(fabric)@.with_gate(
                seq![rhs.id, self.value.id],
                GateFunction::Mul,
            ),
    {
        MpcScalarResult { value: rhs.mul(fabric, &self.value) }
    }

    /// Multiply two shared values with a Beaver triple.
    ///
    /// For a triple `(a, b, c)` with `c = a * b`, the parties open `d = lhs - a`
    /// and `e = rhs - b`; then `lhs * rhs = d * b + e * a + c + d * e`.
    ///
    /// The Beaver triples that the fabric lacks for it are drawn from the
    /// source first, in one request.
    pub fn mul<S: SharedValueSource>(&self, fabric: &mut MpcFabric<S>, rhs: &MpcScalarResult) -> (r:
        MpcScalarResult)
        requires
            old(fabric).wf(),
            old(fabric)@.has_room(17),
        ensures
            final(fabric).wf(),
            r.value.id == old(fabric)@.next_result_id + 16,
            old(fabric)@.triples.len() >= 1 ==> (final(fabric)@ == old(fabric)@.beaver_mul(self.value.id, rhs.value.id)),
            old(fabric)@.triples.len() >= 1 ==> (final(fabric)@.advanced(old(fabric)@, 17, 12, 1)),
            exists|drawn: Seq<(Scalar, Scalar, Scalar)>|
                {
                    &&& #[trigger] old(fabric)@.draws(drawn, 1)
                    &&& (final(fabric)@ == old(fabric)@.with_drawn(drawn).beaver_mul(self.value.id, rhs.value.id))
                    &&& (final(fabric)@.advanced(old(fabric)@.with_drawn(drawn), 17, 12, 1))
                },
    {
        proof {
            fabric.lemma_wf();
        }
        fabric.draw_missing_triples(1);
        let ghost drawn = fabric@.triples.skip(old(fabric)@.triples.len() as int);
        let r = self.mul_with_triples(fabric, rhs);
        proof {
            assert(old(fabric)@.draws(drawn, 1));
        }
        r
    }

    /// The same, with the Beaver triples that it uses drawn beforehand
    fn mul_with_triples<S: SharedValueSource>(&self, fabric: &mut MpcFabric<S>, rhs: &MpcScalarResult) -> (r:
        MpcScalarResult)
        requires
            old(fabric).wf(),
            old(fabric)@.has_room(17),
            old(fabric)@.triples.len() >= 1,
        ensures
            final(fabric).wf(),
            r.value.id == old(fabric)@.next_result_id + 16,
            final(fabric)@ == old(fabric)@.beaver_mul(self.value.id, rhs.value.id),
            final(fabric)@.advanced(old(fabric)@, 17, 12, 1),
    {
        proof {
            reveal(FabricState::beaver_mul);
        }
        // Sample a beaver triple
        let (a, b, c) = fabric.next_beaver_triple();
        // Open the values d = [lhs - a] and e = [rhs - b]
        let masked_lhs = self.sub(fabric, &a);
        let masked_rhs = rhs.sub(fabric, &b);
        let d_open = masked_lhs.open(fabric);
        let e_open = masked_rhs.open(fabric);
        // Identity: [a * b] = de + d[b] + e[a] + [c]
        let db = b.mul_result(fabric, &d_open);
        let ea = a.mul_result(fabric, &e_open);
        let sum = db.add(fabric, &ea);
        let with_c = sum.add(fabric, &c);
        let de = d_open.mul(fabric, &e_open);
        let product = with_c.add_result(fabric, &de);
        proof {
            assert(old(fabric)@.triples.skip(1) =~= old(fabric)@.triples.drop_first());
        }
        product
    }

    /// Subtract a batch of shared values from another, element by element
    pub fn batch_sub<S: SharedValueSource>(
        fabric: &mut MpcFabric<S>,
        a: &[MpcScalarResult],
        b: &[MpcScalarResult],
    ) -> (r: Vec<MpcScalarResult>)
        requires
            old(fabric).wf(),
            a@.len() == b@.len(),
            old(fabric)@.has_room(a@.len() as int),
        ensures
            final(fabric).wf(),
            final(fabric)@ == (if a@.len() == 0 {
                old(fabric)@
            } else {
                old(fabric)@.with_batch_gate(
                    Self::share_ids(a@) + Self::share_ids(b@),
                    a@.len() as int,
                    BatchGateFunction::BatchSub,
                )
            }),
            r@.len() == a@.len(),
            Self::share_ids(r@) == range_ids(old(fabric)@.next_result_id, a@.len() as int),
            a@.len() > 0 ==> final(fabric)@.advanced(old(fabric)@, a@.len() as int, 1, 0),
    {
        if a.len() == 0 {
            let r: Vec<MpcScalarResult> = Vec::new();
            assert(Self::share_ids(r@) =~= range_ids(old(fabric)@.next_result_id, 0));
            return r;
        }
        let handles = fabric.batch_gate(
            Self::collect_share_ids(a),
            Self::collect_share_ids(b),
            a.len(),
            BatchGateFunction::BatchSub,
        );
        Self::from_handles(handles)
    }

    /// Add two batches of shared values, element by element
    pub fn batch_add<S: SharedValueSource>(
        fabric: &mut MpcFabric<S>,
        a: &[MpcScalarResult],
        b: &[MpcScalarResult],
    ) -> (r: Vec<MpcScalarResult>)
        requires
            old(fabric).wf(),
            a@.len() == b@.len(),
            old(fabric)@.has_room(a@.len() as int),
        ensures
            final(fabric).wf(),
            final(fabric)@ == (if a@.len() == 0 {
                old(fabric)@
            } else {
                old(fabric)@.with_batch_gate(
                    Self::share_ids(a@) + Self::share_ids(b@),
                    a@.len() as int,
                    BatchGateFunction::BatchAdd,
                )
            }),
            r@.len() == a@.len(),
            Self::share_ids(r@) == range_ids(old(fabric)@.next_result_id, a@.len() as int),
            a@.len() > 0 ==> final(fabric)@.advanced(old(fabric)@, a@.len() as int, 1, 0),
    {
        if a.len() == 0 {
            let r: Vec<MpcScalarResult> = Vec::new();
            assert(Self::share_ids(r@) =~= range_ids(old(fabric)@.next_result_id, 0));
            return r;
        }
        let handles = fabric.batch_gate(
            Self::collect_share_ids(a),
            Self::collect_share_ids(b),
            a.len(),
            BatchGateFunction::BatchAdd,
        );
        Self::from_handles(handles)
    }

    /// Add a batch of public values to a batch of shared values, element by
    /// element: the first party adds them to its shares
    pub fn batch_add_public<S: SharedValueSource>(
        fabric: &mut MpcFabric<S>,
        a: &[MpcScalarResult],
        b: &[ScalarResult],
    ) -> (r: Vec<MpcScalarResult>)
        requires
            old(fabric).wf(),
            a@.len() == b@.len(),
            old(fabric)@.has_room(a@.len() as int),
        ensures
            final(fabric).wf(),
            final(fabric)@ == (if a@.len() == 0 {
                old(fabric)@
            } else {
                old(fabric)@.with_batch_gate(
                    Self::share_ids(a@) + crate::fabric::result::ids_of(b@),
                    a@.len() as int,
                    BatchGateFunction::BatchSharePlusPublic { party_id: old(fabric)@.party_id },
                )
            }),
            r@.len() == a@.len(),
            Self::share_ids(r@) == range_ids(old(fabric)@.next_result_id, a@.len() as int),
            a@.len() > 0 ==> final(fabric)@.advanced(old(fabric)@, a@.len() as int, 1, 0),
    {
        if a.len() == 0 {
            let r: Vec<MpcScalarResult> = Vec::new();
            assert(Self::share_ids(r@) =~= range_ids(old(fabric)@.next_result_id, 0));
            return r;
        }
        let party_id = fabric.party_id();
        let handles = fabric.batch_gate(
            Self::collect_share_ids(a),
            crate::fabric::result::collect_ids(b),
            a.len(),
            BatchGateFunction::BatchSharePlusPublic { party_id },
        );
        Self::from_handles(handles)
    }

    /// Multiply a batch of shared values by a batch of public values, element
    /// by element
    pub fn batch_mul_public<S: SharedValueSource>(
        fabric: &mut MpcFabric<S>,
        a: &[MpcScalarResult],
        b: &[ScalarResult],
    ) -> (r: Vec<MpcScalarResult>)
        requires
            old(fabric).wf(),
            a@.len() == b@.len(),
            old(fabric)@.has_room(a@.len() as int),
        ensures
            final(fabric).wf(),
            final(fabric)@ == (if a@.len() == 0 {
                old(fabric)@
            } else {
                old(fabric)@.with_batch_gate(
                    Self::share_ids(a@) + crate::fabric::result::ids_of(b@),
                    a@.len() as int,
                    BatchGateFunction::BatchMul,
                )
            }),
            r@.len() == a@.len(),
            Self::share_ids(r@) == range_ids(old(fabric)@.next_result_id, a@.len() as int),
            a@.len() > 0 ==> final(fabric)@.advanced(old(fabric)@, a@.len() as int, 1, 0),
    {
        if a.len() == 0 {
            let r: Vec<MpcScalarResult> = Vec::new();
            assert(Self::share_ids(r@) =~= range_ids(old(fabric)@.next_result_id, 0));
            return r;
        }
        let handles = fabric.batch_gate(
            Self::collect_share_ids(a),
            crate::fabric::result::collect_ids(b),
            a.len(),
            BatchGateFunction::BatchMul,
        );
        Self::from_handles(handles)
    }

    /// Multiply two batches of shared values, element by element, with one
    /// Beaver triple for each product and one opening for all of the masked
    /// values
    ///
    /// The Beaver triples that the fabric lacks for it are drawn from the
    /// source first, in one request.
    pub fn batch_mul<S: SharedValueSource>(
        fabric: &mut MpcFabric<S>,
        a: &[MpcScalarResult],
        b: &[MpcScalarResult],
    ) -> (r: Vec<MpcScalarResult>)
        requires
            old(fabric).wf(),
            a@.len() == b@.len(),
            a@.len() > 0 ==> old(fabric)@.has_room(13 * (a@.len() as int) + 2),
        ensures
            final(fabric).wf(),
            old(fabric)@.triples.len() >= a@.len() ==> (final(fabric)@ == old(fabric)@.beaver_batch_mul(
                    Self::share_ids(a@),
                    Self::share_ids(b@),
                )),
            r@.len() == a@.len(),
            old(fabric)@.triples.len() >= a@.len() ==> (a@.len() > 0 ==> Self::share_ids(r@) == range_ids(
                    old(fabric)@.next_result_id + 12 * a@.len() + 2,
                    a@.len() as int,
                ) && final(fabric)@.advanced(
                    old(fabric)@,
                    13 * (a@.len() as int) + 2,
                    10,
                    a@.len() as int,
                )),
            exists|drawn: Seq<(Scalar, Scalar, Scalar)>|
                {
                    &&& #[trigger] old(fabric)@.draws(drawn, a@.len() as int)
                    &&& (final(fabric)@ == old(fabric)@.with_drawn(drawn).beaver_batch_mul(
                        Self::share_ids(a@),
                        Self::share_ids(b@),
                    ))
                    &&& (a@.len() > 0 ==> Self::share_ids(r@) == range_ids(
                        old(fabric)@.next_result_id + 12 * a@.len() + 2,
                        a@.len() as int,
                    ) && final(fabric)@.advanced(
                        old(fabric)@.with_drawn(drawn),
                        13 * (a@.len() as int) + 2,
                        10,
                        a@.len() as int,
                    ))
                },
    {
        proof {
            fabric.lemma_wf();
        }
        fabric.draw_missing_triples(a.len());
        let ghost drawn = fabric@.triples.skip(old(fabric)@.triples.len() as int);
        let r = Self::batch_mul_with_triples(fabric, a, b);
        proof {
            assert(old(fabric)@.draws(drawn, a@.len() as int));
        }
        r
    }

    /// The same, with the Beaver triples that it uses drawn beforehand
    fn batch_mul_with_triples<S: SharedValueSource>(
        fabric: &mut MpcFabric<S>,
        a: &[MpcScalarResult],
        b: &[MpcScalarResult],
    ) -> (r: Vec<MpcScalarResult>)
        requires
            old(fabric).wf(),
            a@.len() == b@.len(),
            a@.len() > 0 ==> old(fabric)@.has_room(13 * (a@.len() as int) + 2),
            old(fabric)@.triples.len() >= a@.len(),
        ensures
            final(fabric).wf(),
            final(fabric)@ == old(fabric)@.beaver_batch_mul(
                Self::share_ids(a@),
                Self::share_ids(b@),
            ),
            r@.len() == a@.len(),
            a@.len() > 0 ==> Self::share_ids(r@) == range_ids(
                old(fabric)@.next_result_id + 12 * a@.len() + 2,
                a@.len() as int,
            ) && final(fabric)@.advanced(
                old(fabric)@,
                13 * (a@.len() as int) + 2,
                10,
                a@.len() as int,
            ),
    {
        proof {
            reveal(FabricState::beaver_batch_mul);
        }
        if a.len() == 0 {
            return Vec::new();
        }
        let n = a.len();
        let first = fabric.next_result_id();
        // Sample a beaver triplet for each multiplication
        let (beaver_a, beaver_b, beaver_c) = fabric.next_beaver_triple_batch(n);
        // Open the values d = [lhs - a] and e = [rhs - b]
        let mut all_masks = Self::batch_sub(fabric, a, beaver_a.as_slice());
        let mut masked_rhs = Self::batch_sub(fabric, b, beaver_b.as_slice());
        proof {
            let joined = all_masks@ + masked_rhs@;
            assert forall|i: int| 0 <= i < 2 * n implies Self::share_ids(joined)[i] == range_ids(
                first + 3 * n,
                2 * n,
            )[i] by {
                if i < n {
                    assert(Self::share_ids(all_masks@)[i] == all_masks@[i].value.id);
                } else {
                    assert(Self::share_ids(masked_rhs@)[i - n] == masked_rhs@[i - n].value.id);
                }
            }
            assert(Self::share_ids(joined) =~= range_ids(first + 3 * n, 2 * n));
        }
        all_masks.append(&mut masked_rhs);
        let mut d_open = Self::open_batch(fabric, all_masks.as_slice());
        let ghost opened_ids = crate::fabric::result::ids_of(d_open@);
        let e_open = d_open.split_off(n);
        proof {
            assert(crate::fabric::result::ids_of(d_open@) =~= range_ids(first + 5 * n + 2, n as int)) by {
                assert forall|i: int| 0 <= i < n implies crate::fabric::result::ids_of(d_open@)[i]
                    == range_ids(first + 5 * n + 2, n as int)[i] by {
                    assert(opened_ids[i] == range_ids(first + 5 * n + 2, 2 * n)[i]);
                }
            }
            assert(crate::fabric::result::ids_of(e_open@) =~= range_ids(first + 6 * n + 2, n as int)) by {
                assert forall|i: int| 0 <= i < n implies crate::fabric::result::ids_of(e_open@)[i]
                    == range_ids(first + 6 * n + 2, n as int)[i] by {
                    assert(opened_ids[n + i] == range_ids(first + 5 * n + 2, 2 * n)[n + i]);
                }
            }
        }
        let d_open = d_open.as_slice();
        let e_open = e_open.as_slice();
        // Identity: [a * b] = de + d[b] + e[a] + [c]
        let de = ScalarResult::batch_mul(fabric, d_open, e_open);
        let db = Self::batch_mul_public(fabric, beaver_b.as_slice(), d_open);
        let ea = Self::batch_mul_public(fabric, beaver_a.as_slice(), e_open);
        // Add the terms
        let de_plus_db = Self::batch_add_public(fabric, db.as_slice(), de.as_slice());
        let ea_plus_c = Self::batch_add(fabric, ea.as_slice(), beaver_c.as_slice());
        Self::batch_add(fabric, de_plus_db.as_slice(), ea_plus_c.as_slice())
    }
}

impl<S: SharedValueSource> MpcFabric<S> {
    /// Sample the next beaver triplet from the beaver source
    ///
    /// The Beaver triples that the fabric lacks for it are drawn from the
    /// source first, in one request.
    pub fn next_beaver_triple(&mut self) -> (r: (MpcScalarResult, MpcScalarResult, MpcScalarResult))
        requires
            old(self).wf(),
            old(self)@.has_room(3),
        ensures
            final(self).wf(),
            r.0.value.id == old(self)@.next_result_id,
            r.1.value.id == old(self)@.next_result_id + 1,
            r.2.value.id == old(self)@.next_result_id + 2,
            old(self)@.triples.len() >= 1 ==> final(self)@ == old(self)@.with_beaver_triple(),
            old(self)@.triples.len() >= 1 ==> (final(self)@.advanced(old(self)@, 3, 0, 1)),
            exists|drawn: Seq<(Scalar, Scalar, Scalar)>|
                {
                    &&& #[trigger] old(self)@.draws(drawn, 1)
                    &&& (final(self)@ == old(self)@.with_drawn(drawn).with_beaver_triple())
                    &&& (final(self)@.advanced(old(self)@.with_drawn(drawn), 3, 0, 1))
                },
    {
        proof {
            self.lemma_wf();
        }
        self.draw_missing_triples(1);
        let ghost drawn = self@.triples.skip(old(self)@.triples.len() as int);
        let r = self.next_beaver_triple_with_triples();
        proof {
            assert(old(self)@.draws(drawn, 1));
        }
        r
    }

    /// The same, with the Beaver triples that it uses drawn beforehand
    fn next_beaver_triple_with_triples(&mut self) -> (r: (MpcScalarResult, MpcScalarResult, MpcScalarResult))
        requires
            old(self).wf(),
            old(self)@.has_room(3),
            old(self)@.triples.len() >= 1,
        ensures
            final(self).wf(),
            r.0.value.id == old(self)@.next_result_id,
            r.1.value.id == old(self)@.next_result_id + 1,
            r.2.value.id == old(self)@.next_result_id + 2,
            final(self)@ == old(self)@.with_beaver_triple(),
            final(self)@.advanced(old(self)@, 3, 0, 1),
    {
        proof {
            reveal(FabricState::with_beaver_triple);
        }
        let (a, b, c) = self.take_triple();
        let a_val = self.allocate_scalar(a);
        let b_val = self.allocate_scalar(b);
        let c_val = self.allocate_scalar(c);
        proof {
            assert(old(self)@.triples.skip(1) =~= old(self)@.triples.drop_first());
        }
        (
            MpcScalarResult::new_shared(a_val),
            MpcScalarResult::new_shared(b_val),
            MpcScalarResult::new_shared(c_val),
        )
    }

    /// Sample a batch of beaver triples
    ///
    /// The Beaver triples that the fabric lacks for it are drawn from the
    /// source first, in one request.
    pub fn next_beaver_triple_batch(&mut self, n: usize) -> (r: (
        Vec<MpcScalarResult>,
        Vec<MpcScalarResult>,
        Vec<MpcScalarResult>,
    ))
        requires
            old(self).wf(),
            old(self)@.has_room(3 * n),
        ensures
            final(self).wf(),
            r.0@.len() == n,
            r.1@.len() == n,
            r.2@.len() == n,
            MpcScalarResult::share_ids(r.0@) == range_ids(old(self)@.next_result_id, n as int),
            MpcScalarResult::share_ids(r.1@) == range_ids(old(self)@.next_result_id + n, n as int),
            MpcScalarResult::share_ids(r.2@) == range_ids(
                old(self)@.next_result_id + 2 * n,
                n as int,
            ),
            old(self)@.triples.len() >= n ==> (final(self)@ == old(self)@.with_beaver_triples(n as int)),
            old(self)@.triples.len() >= n ==> (final(self)@.advanced(old(self)@, 3 * n, 0, n as int)),
            exists|drawn: Seq<(Scalar, Scalar, Scalar)>|
                {
                    &&& #[trigger] old(self)@.draws(drawn, n as int)
                    &&& (final(self)@ == old(self)@.with_drawn(drawn).with_beaver_triples(n as int))
                    &&& (final(self)@.advanced(old(self)@.with_drawn(drawn), 3 * n, 0, n as int))
                },
    {
        proof {
            self.lemma_wf();
        }
        self.draw_missing_triples(n);
        let ghost drawn = self@.triples.skip(old(self)@.triples.len() as int);
        let r = self.next_beaver_triple_batch_with_triples(n);
        proof {
            assert(old(self)@.draws(drawn, n as int));
        }
        r
    }

    /// The same, with the Beaver triples that it uses drawn beforehand
    fn next_beaver_triple_batch_with_triples(&mut self, n: usize) -> (r: (
        Vec<MpcScalarResult>,
        Vec<MpcScalarResult>,
        Vec<MpcScalarResult>,
    ))
        requires
            old(self).wf(),
            old(self)@.has_room(3 * n),
            old(self)@.triples.len() >= n,
        ensures
            final(self).wf(),
            r.0@.len() == n,
            r.1@.len() == n,
            r.2@.len() == n,
            MpcScalarResult::share_ids(r.0@) == range_ids(old(self)@.next_result_id, n as int),
            MpcScalarResult::share_ids(r.1@) == range_ids(old(self)@.next_result_id + n, n as int),
            MpcScalarResult::share_ids(r.2@) == range_ids(
                old(self)@.next_result_id + 2 * n,
                n as int,
            ),
            final(self)@ == old(self)@.with_beaver_triples(n as int),
            final(self)@.advanced(old(self)@, 3 * n, 0, n as int),
    {
        proof {
            reveal(FabricState::with_beaver_triples);
        }
        let ghost s0 = self@;
        let mut a_vals: Vec<Scalar> = Vec::with_capacity(n);
        let mut b_vals: Vec<Scalar> = Vec::with_capacity(n);
        let mut c_vals: Vec<Scalar> = Vec::with_capacity(n);
        let mut i: usize = 0;
        proof {
            assert(s0.triples.skip(0) =~= s0.triples);
        }
        while i < n
            invariant
                i <= n,
                n <= s0.triples.len(),
                self.wf(),
                s0.has_room(3 * n),
                self@ == (FabricState { triples: s0.triples.skip(i as int), ..s0 }),
                a_vals@ == Seq::new(i as nat, |j: int| s0.triples[j].0),
                b_vals@ == Seq::new(i as nat, |j: int| s0.triples[j].1),
                c_vals@ == Seq::new(i as nat, |j: int| s0.triples[j].2),
            decreases n - i,
        {
            let (a, b, c) = self.take_triple();
            a_vals.push(a);
            b_vals.push(b);
            c_vals.push(c);
            proof {
                assert(s0.triples.skip(i as int).drop_first() =~= s0.triples.skip(i + 1));
                assert(a_vals@ =~= Seq::new((i + 1) as nat, |j: int| s0.triples[j].0));
                assert(b_vals@ =~= Seq::new((i + 1) as nat, |j: int| s0.triples[j].1));
                assert(c_vals@ =~= Seq::new((i + 1) as nat, |j: int| s0.triples[j].2));
            }
            i += 1;
        }
        let a_handles = self.allocate_scalars(a_vals);
        let b_handles = self.allocate_scalars(b_vals);
        let c_handles = self.allocate_scalars(c_vals);
        proof {
            assert(crate::fabric::result::ids_of(a_handles@) =~= range_ids(
                s0.next_result_id,
                n as int,
            ));
            assert(crate::fabric::result::ids_of(b_handles@) =~= range_ids(
                s0.next_result_id + n,
                n as int,
            ));
            assert(crate::fabric::result::ids_of(c_handles@) =~= range_ids(
                s0.next_result_id + 2 * n,
                n as int,
            ));
        }
        (
            MpcScalarResult::from_handles(a_handles),
            MpcScalarResult::from_handles(b_handles),
            MpcScalarResult::from_handles(c_handles),
        )
    }
}

} // verus!
