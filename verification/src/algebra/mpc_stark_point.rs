//! Additively shared curve points: each party holds a share, and the shares
//! add up to the point. Multiplying a shared point by a shared scalar takes a
//! Beaver triple and two openings.

use vstd::prelude::*;

use crate::algebra::mpc_scalar::MpcScalarResult;
use crate::algebra::scalar::Scalar;
use crate::algebra::scalar::ScalarResult;
use crate::algebra::stark_curve::StarkPoint;
use crate::algebra::stark_curve::StarkPointResult;
use crate::beaver::SharedValueSource;
use crate::fabric::gate::BatchGateFunction;
use crate::fabric::gate::Constant;
use crate::fabric::gate::GateFunction;
use crate::fabric::gate::NetworkFunction;
use crate::fabric::result::ids_of;
use crate::fabric::result::range_ids;
use crate::fabric::result::ResultId;
use crate::fabric::FabricState;
use crate::fabric::MpcFabric;
use crate::PARTY0;

verus! {

impl FabricState {
    /// The state after a shared point has been multiplied by a shared scalar
    /// with a Beaver triple `(a, b, c)`: the masked values `d = scalar - a` and
    /// `eG = point - bG` are opened, and the product is
    /// `d * eG + d * bG + a * eG + c * G`, the first term added by the first
    /// party alone. The product is the last of the 20 results declared.
    #[verifier::opaque]
    pub open spec fn beaver_mul_point(self, point: ResultId, scalar: ResultId) -> FabricState {
        let n = self.next_result_id;
        let generator = GateFunction::MulConstant(Constant::Point(StarkPoint::generator_spec()));
        let a = n as usize;
        let b = (n + 1) as usize;
        let c = (n + 2) as usize;
        let masked = self.with_beaver_triple().with_gate(
            seq![scalar, a],
            GateFunction::Sub,
        ).with_gate(seq![b], generator).with_gate(seq![point, (n + 4) as usize], GateFunction::Sub);
        let opened = masked.opened((n + 5) as usize).opened((n + 3) as usize);
        let e = (n + 8) as usize;
        let d = (n + 11) as usize;
        opened.with_gate(seq![d, e], GateFunction::Mul).with_gate(seq![b], generator).with_gate(
            seq![d, (n + 13) as usize],
            GateFunction::Mul,
        ).with_gate(
            seq![(n + 14) as usize, (n + 12) as usize],
            GateFunction::AddPublic { party_id: self.party_id },
        ).with_gate(seq![a, e], GateFunction::Mul).with_gate(
            seq![(n + 15) as usize, (n + 16) as usize],
            GateFunction::Add,
        ).with_gate(seq![c], generator).with_gate(
            seq![(n + 17) as usize, (n + 18) as usize],
            GateFunction::Add,
        )
    }

    /// The state after a batch of shared points has been multiplied by a batch
    /// of shared scalars, element by element, with one Beaver triple for each
    /// product and one opening for all of the masked scalars and one for all of
    /// the masked points. The products are the last `n` of the `15 n + 4`
    /// results declared.
    #[verifier::opaque]
    pub open spec fn beaver_batch_mul_point(self, scalars: Seq<ResultId>, points: Seq<ResultId>)
        -> FabricState {
        let n = scalars.len() as int;
        let first = self.next_result_id;
        let party_id = self.party_id;
        let beaver_a = range_ids(first, n);
        let beaver_b = range_ids(first + n, n);
        let beaver_c = range_ids(first + 2 * n, n);
        let b_gen = range_ids(first + 3 * n, n);
        let masked_rhs = range_ids(first + 4 * n, n);
        let masked_lhs = range_ids(first + 5 * n, n);
        let e_open = range_ids(first + 6 * n + 2, n);
        let d_open = range_ids(first + 7 * n + 4, n);
        let de = range_ids(first + 8 * n + 4, n);
        let db = range_ids(first + 9 * n + 4, n);
        let ae = range_ids(first + 10 * n + 4, n);
        let cg = range_ids(first + 11 * n + 4, n);
        let de_db = range_ids(first + 12 * n + 4, n);
        let ae_c = range_ids(first + 13 * n + 4, n);
        if n == 0 {
            self
        } else {
            self.with_beaver_triples(n).with_batch_gate(
                beaver_b,
                n,
                BatchGateFunction::BatchMulGenerator,
            ).with_batch_gate(scalars + beaver_a, n, BatchGateFunction::BatchSub).with_batch_gate(
                points + b_gen,
                n,
                BatchGateFunction::BatchSub,
            ).opened_batch(masked_lhs, NetworkFunction::SendPointBatch).opened_batch(
                masked_rhs,
                NetworkFunction::SendScalarBatch,
            ).with_batch_gate(d_open + e_open, n, BatchGateFunction::BatchMul).with_batch_gate(
                d_open + b_gen,
                n,
                BatchGateFunction::BatchMul,
            ).with_batch_gate(beaver_a + e_open, n, BatchGateFunction::BatchMul).with_batch_gate(
                beaver_c,
                n,
                BatchGateFunction::BatchMulGenerator,
            ).with_batch_gate(
                db + de,
                n,
                BatchGateFunction::BatchSharePlusPublic { party_id },
            ).with_batch_gate(ae + cg, n, BatchGateFunction::BatchAdd).with_batch_gate(
                de_db + ae_c,
                n,
                BatchGateFunction::BatchAdd,
            )
        }
    }
}

/// A secret shared curve point: this party's additive share of a point,
/// without a MAC
#[derive(Debug)]
pub struct MpcStarkPointResult {
    /// The underlying value held by the local party
    pub share: StarkPointResult,
}

impl Clone for MpcStarkPointResult {
    fn clone(&self) -> (r: Self)
        ensures
            r.share.id == self.share.id,
    {
        MpcStarkPointResult { share: self.share.clone() }
    }
}

impl MpcStarkPointResult {
    /// Creates an `MpcStarkPoint` from a given underlying point assumed to be a secret share
    pub fn new_shared(value: StarkPointResult) -> (r: MpcStarkPointResult)
        ensures
            r.share.id == value.id,
    {
        MpcStarkPointResult { share: value }
    }

    /// Get the ID of the underlying share's result
    pub fn id(&self) -> (r: ResultId)
        ensures
            r == self.share.id,
    {
        self.share.id
    }

    /// The ids of the shares of a batch of values
    pub open spec fn share_ids(values: Seq<MpcStarkPointResult>) -> Seq<ResultId> {
        Seq::new(values.len(), |i: int| values[i].share.id)
    }

    /// Collect the ids of the shares of a batch of values
    pub fn collect_share_ids(values: &[MpcStarkPointResult]) -> (r: Vec<ResultId>)
        ensures
            r@ == Self::share_ids(values@),
    {
        let mut ids: Vec<ResultId> = Vec::with_capacity(values.len());
        let mut i: usize = 0;
        while i < values.len()
            invariant
                i <= values@.len(),
                ids@.len() == i,
                forall|j: int| 0 <= j < i ==> (#[trigger] ids@[j]) == values@[j].share.id,
            decreases values@.len() - i,
        {
            ids.push(values[i].share.id);
            i += 1;
        }
        assert(ids@ =~= Self::share_ids(values@));
        ids
    }

    /// Shared values over a list of handles to their shares
    pub fn from_handles(handles: Vec<StarkPointResult>) -> (r: Vec<MpcStarkPointResult>)
        ensures
            Self::share_ids(r@) == ids_of(handles@),
            r@.len() == handles@.len(),
    {
        let mut values: Vec<MpcStarkPointResult> = Vec::with_capacity(handles.len());
        let mut i: usize = 0;
        while i < handles.len()
            invariant
                i <= handles@.len(),
                values@.len() == i,
                forall|j: int| 0 <= j < i ==> (#[trigger] values@[j]).share.id == handles@[j].id,
            decreases handles@.len() - i,
        {
            values.push(MpcStarkPointResult { share: handles[i].clone() });
            i += 1;
        }
        assert(Self::share_ids(values@) =~= ids_of(handles@));
        values
    }

    /// Opens the value by sharing additive shares with the counterparty
    pub fn open<S: SharedValueSource>(&self, fabric: &mut MpcFabric<S>) -> (r: StarkPointResult)
        requires
            old(fabric).wf(),
            old(fabric)@.has_room(3),
        ensures
            final(fabric).wf(),
            r.id == old(fabric)@.next_result_id + 2,
            final(fabric)@ == old(fabric)@.opened(self.share.id),
            final(fabric)@.advanced(old(fabric)@, 3, 2, 0),
    {
        proof {
            reveal(FabricState::opened);
        }
        let peer = fabric.exchange_value(&self.share);
        if fabric.party_id() == PARTY0 {
            fabric.binary_gate(self.share.id, peer.id, GateFunction::Add)
        } else {
            fabric.binary_gate(peer.id, self.share.id, GateFunction::Add)
        }
    }

    /// Open a batch of values
    pub fn open_batch<S: SharedValueSource>(
        fabric: &mut MpcFabric<S>,
        values: &[MpcStarkPointResult],
    ) -> (r: Vec<StarkPointResult>)
        requires
            old(fabric).wf(),
            old(fabric)@.has_room(values@.len() as int + 2),
        ensures
            final(fabric).wf(),
            final(fabric)@ == old(fabric)@.opened_batch(
                Self::share_ids(values@),
                NetworkFunction::SendPointBatch,
            ),
            r@.len() == values@.len(),
            values@.len() > 0 ==> ids_of(r@) == range_ids(
                old(fabric)@.next_result_id + 2,
                values@.len() as int,
            ) && final(fabric)@.advanced(old(fabric)@, values@.len() as int + 2, 2, 0),
    {
        proof {
            reveal(FabricState::opened_batch);
        }
        if values.len() == 0 {
            return Vec::new();
        }
        let n = values.len();
        let ids = Self::collect_share_ids(values);
        let mut args = ids.clone();
        let peer = if fabric.party_id() == PARTY0 {
            fabric.new_network_op::<Vec<StarkPoint>>(ids, NetworkFunction::SendPointBatch);
            fabric.receive_value::<Vec<StarkPoint>>()
        } else {
            let handle = fabric.receive_value::<Vec<StarkPoint>>();
            fabric.new_network_op::<Vec<StarkPoint>>(ids, NetworkFunction::SendPointBatch);
            handle
        };
        args.push(peer.id);
        let party_id = fabric.party_id();
        fabric.new_batch_gate_op(args, n, BatchGateFunction::BatchOpen { party_id })
    }

    /// Add two shared points
    pub fn add<S: SharedValueSource>(
        &self,
        fabric: &mut MpcFabric<S>,
        rhs: &MpcStarkPointResult,
    ) -> (r: MpcStarkPointResult)
        requires
            old(fabric).wf(),
            old(fabric)@.has_room(1),
        ensures
            final(fabric).wf(),
            r.share.id == old(fabric)@.next_result_id,
            final(fabric)@ == old(fabric)@.with_gate(
                seq![self.share.id, rhs.share.id],
                GateFunction::Add,
            ),
    {
        MpcStarkPointResult { share: self.share.add(fabric, &rhs.share) }
    }

    /// Add a public point to a shared point: the first party adds it to its share
    pub fn add_point<S: SharedValueSource>(&self, fabric: &mut MpcFabric<S>, rhs: StarkPoint) -> (r:
        MpcStarkPointResult)
        requires
            old(fabric).wf(),
            old(fabric)@.has_room(1),
        ensures
            final(fabric).wf(),
            r.share.id == old(fabric)@.next_result_id,
            final(fabric)@ == old(fabric)@.share_plus_constant(
                self.share.id,
                Constant::Point(rhs),
            ),
    {
        if fabric.party_id() == PARTY0 {
            MpcStarkPointResult { share: self.share.add_point(fabric, rhs) }
        } else {
            MpcStarkPointResult { share: fabric.unary_gate(self.share.id, GateFunction::Pass) }
        }
    }

    /// Add a public result to a shared point: the first party adds it to its share
    pub fn add_result<S: SharedValueSource>(
        &self,
        fabric: &mut MpcFabric<S>,
        rhs: &StarkPointResult,
    ) -> (r: MpcStarkPointResult)
        requires
            old(fabric).wf(),
            old(fabric)@.has_room(1),
        ensures
            final(fabric).wf(),
            r.share.id == old(fabric)@.next_result_id,
            final(fabric)@ == old(fabric)@.with_gate(
                seq![self.share.id, rhs.id],
                GateFunction::AddPublic { party_id: old(fabric)@.party_id },
            ),
    {
        let party_id = fabric.party_id();
        MpcStarkPointResult {
            share: fabric.binary_gate(self.share.id, rhs.id, GateFunction::AddPublic { party_id }),
        }
    }

    /// Subtract a shared point from another
    pub fn sub<S: SharedValueSource>(
        &self,
        fabric: &mut MpcFabric<S>,
        rhs: &MpcStarkPointResult,
    ) -> (r: MpcStarkPointResult)
        requires
            old(fabric).wf(),
            old(fabric)@.has_room(1),
        ensures
            final(fabric).wf(),
            r.share.id == old(fabric)@.next_result_id,
            final(fabric)@ == old(fabric)@.with_gate(
                seq![self.share.id, rhs.share.id],
                GateFunction::Sub,
            ),
    {
        MpcStarkPointResult { share: self.share.sub(fabric, &rhs.share) }
    }

    /// Subtract a public point from a shared point: the first party subtracts
    /// it from its share
    pub fn sub_point<S: SharedValueSource>(&self, fabric: &mut MpcFabric<S>, rhs: StarkPoint) -> (r:
        MpcStarkPointResult)
        requires
            old(fabric).wf(),
            old(fabric)@.has_room(1),
        ensures
            final(fabric).wf(),
            r.share.id == old(fabric)@.next_result_id,
            final(fabric)@ == old(fabric)@.share_minus_constant(
                self.share.id,
                Constant::Point(rhs),
            ),
    {
        if fabric.party_id() == PARTY0 {
            MpcStarkPointResult { share: self.share.sub_point(fabric, rhs) }
        } else {
            MpcStarkPointResult { share: fabric.unary_gate(self.share.id, GateFunction::Pass) }
        }
    }

    /// Subtract a public result from a shared point: the first party subtracts
    /// it from its share
    pub fn sub_result<S: SharedValueSource>(
        &self,
        fabric: &mut MpcFabric<S>,
        rhs: &StarkPointResult,
    ) -> (r: MpcStarkPointResult)
        requires
            old(fabric).wf(),
            old(fabric)@.has_room(1),
        ensures
            final(fabric).wf(),
            r.share.id == old(fabric)@.next_result_id,
            final(fabric)@ == old(fabric)@.with_gate(
                seq![self.share.id, rhs.id],
                GateFunction::SubPublic { party_id: old(fabric)@.party_id },
            ),
    {
        let party_id = fabric.party_id();
        MpcStarkPointResult {
            share: fabric.binary_gate(self.share.id, rhs.id, GateFunction::SubPublic { party_id }),
        }
    }

    /// Negate a shared point
    pub fn neg<S: SharedValueSource>(&self, fabric: &mut MpcFabric<S>) -> (r: MpcStarkPointResult)
        requires
            old(fabric).wf(),
            old(fabric)@.has_room(1),
        ensures
            final(fabric).wf(),
            r.share.id == old(fabric)@.next_result_id,
            final(fabric)@ == old(fabric)@.with_gate(seq![self.share.id], GateFunction::Neg),
    {
        MpcStarkPointResult { share: self.share.neg(fabric) }
    }

    /// Multiply a shared point by a public scalar
    pub fn mul_scalar<S: SharedValueSource>(&self, fabric: &mut MpcFabric<S>, rhs: Scalar) -> (r:
        MpcStarkPointResult)
        requires
            old(fabric).wf(),
            old(fabric)@.has_room(1),
        ensures
            final(fabric).wf(),
            r.share.id == old(fabric)@.next_result_id,
            final(fabric)@ == old(fabric)@.with_gate(
                seq![self.share.id],
                GateFunction::MulConstant(Constant::Scalar(rhs)),
            ),
    {
        MpcStarkPointResult { share: self.share.mul_scalar(fabric, rhs) }
    }

    /// Multiply a shared point by a public scalar result
    pub fn mul_result<S: SharedValueSource>(
        &self,
        fabric: &mut MpcFabric<S>,
        rhs: &ScalarResult,
    ) -> (r: MpcStarkPointResult)
        requires
            old(fabric).wf(),
            old(fabric)@.has_room(1),
        ensures
            final(fabric).wf(),
            r.share.id == old(fabric)@.next_result_id,
            final(fabric)@ == old(fabric)@.with_gate(
                seq![rhs.id, self.share.id],
                GateFunction::Mul,
            ),
    {
        MpcStarkPointResult { share: self.share.mul(fabric, rhs) }
    }

    /// Multiply a shared point by a shared scalar with a Beaver triple.
    ///
    /// For a triple `(a, b, c)` with `c = a * b` and the generator `G`, the
    /// parties open `d = rhs - a` and `eG = self - bG`; then
    /// `rhs * self = d * eG + d * bG + a * eG + c * G`.
    ///
    /// The Beaver triples that the fabric lacks for it are drawn from the
    /// source first, in one request.
    pub fn mul<S: SharedValueSource>(&self, fabric: &mut MpcFabric<S>, rhs: &MpcScalarResult) -> (r:
        MpcStarkPointResult)
        requires
            old(fabric).wf(),
            old(fabric)@.has_room(20),
        ensures
            final(fabric).wf(),
            r.share.id == old(fabric)@.next_result_id + 19,
            old(fabric)@.triples.len() >= 1 ==> (final(fabric)@ == old(fabric)@.beaver_mul_point(self.share.id, rhs.value.id)),
            old(fabric)@.triples.len() >= 1 ==> (final(fabric)@.advanced(old(fabric)@, 20, 15, 1)),
            exists|drawn: Seq<(Scalar, Scalar, Scalar)>|
                {
                    &&& #[trigger] old(fabric)@.draws(drawn, 1)
                    &&& (final(fabric)@ == old(fabric)@.with_drawn(drawn).beaver_mul_point(self.share.id, rhs.value.id))
                    &&& (final(fabric)@.advanced(old(fabric)@.with_drawn(drawn), 20, 15, 1))
                },
    {
        proof {
            fabric.lemma_wf();
        }
        fabric.draw_missing_triples(1);
        let ghost drawn = fabric@.triples.skip(old(fabric)@.triples.len() as int);
        let r = self.mul_with_triples(fabric, rhs);
        proof {
            assert(old(fabric)@.draws(drawn, 1));
        }
        r
    }

    /// The same, with the Beaver triples that it uses drawn beforehand
    fn mul_with_triples<S: SharedValueSource>(&self, fabric: &mut MpcFabric<S>, rhs: &MpcScalarResult) -> (r:
        MpcStarkPointResult)
        requires
            old(fabric).wf(),
            old(fabric)@.has_room(20),
            old(fabric)@.triples.len() >= 1,
        ensures
            final(fabric).wf(),
            r.share.id == old(fabric)@.next_result_id + 19,
            final(fabric)@ == old(fabric)@.beaver_mul_point(self.share.id, rhs.value.id),
            final(fabric)@.advanced(old(fabric)@, 20, 15, 1),
    {
        proof {
            reveal(FabricState::beaver_mul_point);
        }
        // Sample a beaver triple
        let generator = StarkPoint::generator();
        let (a, b, c) = fabric.next_beaver_triple();
        // Open the values d = [rhs - a] and e = [lhs - bG] for curve group generator G
        let masked_rhs = rhs.sub(fabric, &a);
        let b_gen = MpcStarkPointResult { share: b.value.mul_constant_point(fabric, generator) };
        let masked_lhs = self.sub(fabric, &b_gen);
        let e_open = masked_lhs.open(fabric);
        let d_open = masked_rhs.open(fabric);
        // Identity [x * yG] = deG + d[bG] + [a]eG + [c]G
        let de = e_open.mul(fabric, &d_open);
        let b_gen = MpcStarkPointResult { share: b.value.mul_constant_point(fabric, generator) };
        let db = b_gen.mul_result(fabric, &d_open);
        let de_db = db.add_result(fabric, &de);
        let ae = MpcStarkPointResult { share: a.value.mul_point(fabric, &e_open) };
        let sum = de_db.add(fabric, &ae);
        let cg = MpcStarkPointResult { share: c.value.mul_constant_point(fabric, generator) };
        let product = sum.add(fabric, &cg);
        proof {
            assert(old(fabric)@.triples.skip(1) =~= old(fabric)@.triples.drop_first());
        }
        product
    }

    /// Add two batches of shared points, element by element
    pub fn batch_add<S: SharedValueSource>(
        fabric: &mut MpcFabric<S>,
        a: &[MpcStarkPointResult],
        b: &[MpcStarkPointResult],
    ) -> (r: Vec<MpcStarkPointResult>)
        requires
            old(fabric).wf(),
            a@.len() == b@.len(),
            old(fabric)@.has_room(a@.len() as int),
        ensures
            final(fabric).wf(),
            final(fabric)@ == (if a@.len() == 0 {
                old(fabric)@
            } else {
                old(fabric)@.with_batch_gate(
                    Self::share_ids(a@) + Self::share_ids(b@),
                    a@.len() as int,
                    BatchGateFunction::BatchAdd,
                )
            }),
            r@.len() == a@.len(),
            Self::share_ids(r@) == range_ids(old(fabric)@.next_result_id, a@.len() as int),
            a@.len() > 0 ==> final(fabric)@.advanced(old(fabric)@, a@.len() as int, 1, 0),
    {
        if a.len() == 0 {
            let r: Vec<MpcStarkPointResult> = Vec::new();
            assert(Self::share_ids(r@) =~= range_ids(old(fabric)@.next_result_id, 0));
            return r;
        }
        let handles = fabric.batch_gate(
            Self::collect_share_ids(a),
            Self::collect_share_ids(b),
            a.len(),
            BatchGateFunction::BatchAdd,
        );
        Self::from_handles(handles)
    }

    /// Add a batch of public points to a batch of shared points, element by
    /// element: the first party adds them to its shares
    pub fn batch_add_public<S: SharedValueSource>(
        fabric: &mut MpcFabric<S>,
        a: &[MpcStarkPointResult],
        b: &[StarkPointResult],
    ) -> (r: Vec<MpcStarkPointResult>)
        requires
            old(fabric).wf(),
            a@.len() == b@.len(),
            old(fabric)@.has_room(a@.len() as int),
        ensures
            final(fabric).wf(),
            final(fabric)@ == (if a@.len() == 0 {
                old(fabric)@
            } else {
                old(fabric)@.with_batch_gate(
                    Self::share_ids(a@) + ids_of(b@),
                    a@.len() as int,
                    BatchGateFunction::BatchSharePlusPublic { party_id: old(fabric)@.party_id },
                )
            }),
            r@.len() == a@.len(),
            Self::share_ids(r@) == range_ids(old(fabric)@.next_result_id, a@.len() as int),
            a@.len() > 0 ==> final(fabric)@.advanced(old(fabric)@, a@.len() as int, 1, 0),
    {
        if a.len() == 0 {
            let r: Vec<MpcStarkPointResult> = Vec::new();
            assert(Self::share_ids(r@) =~= range_ids(old(fabric)@.next_result_id, 0));
            return r;
        }
        let party_id = fabric.party_id();
        let handles = fabric.batch_gate(
            Self::collect_share_ids(a),
            crate::fabric::result::collect_ids(b),
            a.len(),
            BatchGateFunction::BatchSharePlusPublic { party_id },
        );
        Self::from_handles(handles)
    }

    /// Subtract a batch of shared points from another, element by element
    pub fn batch_sub<S: SharedValueSource>(
        fabric: &mut MpcFabric<S>,
        a: &[MpcStarkPointResult],
        b: &[MpcStarkPointResult],
    ) -> (r: Vec<MpcStarkPointResult>)
        requires
            old(fabric).wf(),
            a@.len() == b@.len(),
            old(fabric)@.has_room(a@.len() as int),
        ensures
            final(fabric).wf(),
            final(fabric)@ == (if a@.len() == 0 {
                old(fabric)@
            } else {
                old(fabric)@.with_batch_gate(
                    Self::share_ids(a@) + Self::share_ids(b@),
                    a@.len() as int,
                    BatchGateFunction::BatchSub,
                )
            }),
            r@.len() == a@.len(),
            Self::share_ids(r@) == range_ids(old(fabric)@.next_result_id, a@.len() as int),
            a@.len() > 0 ==> final(fabric)@.advanced(old(fabric)@, a@.len() as int, 1, 0),
    {
        if a.len() == 0 {
            let r: Vec<MpcStarkPointResult> = Vec::new();
            assert(Self::share_ids(r@) =~= range_ids(old(fabric)@.next_result_id, 0));
            return r;
        }
        let handles = fabric.batch_gate(
            Self::collect_share_ids(a),
            Self::collect_share_ids(b),
            a.len(),
            BatchGateFunction::BatchSub,
        );
        Self::from_handles(handles)
    }

    /// Multiply a batch of shared points by a batch of public scalars, element
    /// by element
    pub fn batch_mul_public<S: SharedValueSource>(
        fabric: &mut MpcFabric<S>,
        a: &[ScalarResult],
        b: &[MpcStarkPointResult],
    ) -> (r: Vec<MpcStarkPointResult>)
        requires
            old(fabric).wf(),
            a@.len() == b@.len(),
            old(fabric)@.has_room(a@.len() as int),
        ensures
            final(fabric).wf(),
            final(fabric)@ == (if a@.len() == 0 {
                old(fabric)@
            } else {
                old(fabric)@.with_batch_gate(
                    ids_of(a@) + Self::share_ids(b@),
                    a@.len() as int,
                    BatchGateFunction::BatchMul,
                )
            }),
            r@.len() == a@.len(),
            Self::share_ids(r@) == range_ids(old(fabric)@.next_result_id, a@.len() as int),
            a@.len() > 0 ==> final(fabric)@.advanced(old(fabric)@, a@.len() as int, 1, 0),
    {
        if a.len() == 0 {
            let r: Vec<MpcStarkPointResult> = Vec::new();
            assert(Self::share_ids(r@) =~= range_ids(old(fabric)@.next_result_id, 0));
            return r;
        }
        let handles = fabric.batch_gate(
            crate::fabric::result::collect_ids(a),
            Self::collect_share_ids(b),
            a.len(),
            BatchGateFunction::BatchMul,
        );
        Self::from_handles(handles)
    }

    /// Multiply a batch of public points by a batch of shared scalars, element
    /// by element
    pub fn batch_mul_shared<S: SharedValueSource>(
        fabric: &mut MpcFabric<S>,
        a: &[MpcScalarResult],
        b: &[StarkPointResult],
    ) -> (r: Vec<MpcStarkPointResult>)
        requires
            old(fabric).wf(),
            a@.len() == b@.len(),
            old(fabric)@.has_room(a@.len() as int),
        ensures
            final(fabric).wf(),
            final(fabric)@ == (if a@.len() == 0 {
                old(fabric)@
            } else {
                old(fabric)@.with_batch_gate(
                    MpcScalarResult::share_ids(a@) + ids_of(b@),
                    a@.len() as int,
                    BatchGateFunction::BatchMul,
                )
            }),
            r@.len() == a@.len(),
            Self::share_ids(r@) == range_ids(old(fabric)@.next_result_id, a@.len() as int),
            a@.len() > 0 ==> final(fabric)@.advanced(old(fabric)@, a@.len() as int, 1, 0),
    {
        if a.len() == 0 {
            let r: Vec<MpcStarkPointResult> = Vec::new();
            assert(Self::share_ids(r@) =~= range_ids(old(fabric)@.next_result_id, 0));
            return r;
        }
        let handles = fabric.batch_gate(
            MpcScalarResult::collect_share_ids(a),
            crate::fabric::result::collect_ids(b),
            a.len(),
            BatchGateFunction::BatchMul,
        );
        Self::from_handles(handles)
    }

    /// Multiply a batch of shared scalars by the generator
    pub fn batch_mul_generator<S: SharedValueSource>(
        fabric: &mut MpcFabric<S>,
        a: &[MpcScalarResult],
    ) -> (r: Vec<MpcStarkPointResult>)
        requires
            old(fabric).wf(),
            old(fabric)@.has_room(a@.len() as int),
        ensures
            final(fabric).wf(),
            final(fabric)@ == (if a@.len() == 0 {
                old(fabric)@
            } else {
                old(fabric)@.with_batch_gate(
                    MpcScalarResult::share_ids(a@),
                    a@.len() as int,
                    BatchGateFunction::BatchMulGenerator,
                )
            }),
            r@.len() == a@.len(),
            Self::share_ids(r@) == range_ids(old(fabric)@.next_result_id, a@.len() as int),
            a@.len() > 0 ==> final(fabric)@.advanced(old(fabric)@, a@.len() as int, 1, 0),
    {
        if a.len() == 0 {
            let r: Vec<MpcStarkPointResult> = Vec::new();
            assert(Self::share_ids(r@) =~= range_ids(old(fabric)@.next_result_id, 0));
            return r;
        }
        let handles = fabric.new_batch_gate_op(
            MpcScalarResult::collect_share_ids(a),
            a.len(),
            BatchGateFunction::BatchMulGenerator,
        );
        Self::from_handles(handles)
    }

    /// Multiply a batch of shared points by a batch of shared scalars, element
    /// by element, with one Beaver triple for each product
    ///
    /// The Beaver triples that the fabric lacks for it are drawn from the
    /// source first, in one request.
    pub fn batch_mul<S: SharedValueSource>(
        fabric: &mut MpcFabric<S>,
        a: &[MpcScalarResult],
        b: &[MpcStarkPointResult],
    ) -> (r: Vec<MpcStarkPointResult>)
        requires
            old(fabric).wf(),
            a@.len() == b@.len(),
            a@.len() > 0 ==> old(fabric)@.has_room(15 * (a@.len() as int) + 4),
        ensures
            final(fabric).wf(),
            old(fabric)@.triples.len() >= a@.len() ==> (final(fabric)@ == old(fabric)@.beaver_batch_mul_point(
                    MpcScalarResult::share_ids(a@),
                    Self::share_ids(b@),
                )),
            r@.len() == a@.len(),
            old(fabric)@.triples.len() >= a@.len() ==> (a@.len() > 0 ==> Self::share_ids(r@) == range_ids(
                    old(fabric)@.next_result_id + 14 * a@.len() + 4,
                    a@.len() as int,
                ) && final(fabric)@.advanced(old(fabric)@, 15 * (a@.len() as int) + 4, 14, a@.len() as int)),
            exists|drawn: Seq<(Scalar, Scalar, Scalar)>|
                {
                    &&& #[trigger] old(fabric)@.draws(drawn, a@.len() as int)
                    &&& (final(fabric)@ == old(fabric)@.with_drawn(drawn).beaver_batch_mul_point(
                        MpcScalarResult::share_ids(a@),
                        Self::share_ids(b@),
                    ))
                    &&& (a@.len() > 0 ==> Self::share_ids(r@) == range_ids(
                        old(fabric)@.next_result_id + 14 * a@.len() + 4,
                        a@.len() as int,
                    ) && final(fabric)@.advanced(old(fabric)@.with_drawn(drawn), 15 * (a@.len() as int) + 4, 14, a@.len() as int))
                },
    {
        proof {
            fabric.lemma_wf();
        }
        fabric.draw_missing_triples(a.len());
        let ghost drawn = fabric@.triples.skip(old(fabric)@.triples.len() as int);
        let r = Self::batch_mul_with_triples(fabric, a, b);
        proof {
            assert(old(fabric)@.draws(drawn, a@.len() as int));
        }
        r
    }

    /// The same, with the Beaver triples that it uses drawn beforehand
    fn batch_mul_with_triples<S: SharedValueSource>(
        fabric: &mut MpcFabric<S>,
        a: &[MpcScalarResult],
        b: &[MpcStarkPointResult],
    ) -> (r: Vec<MpcStarkPointResult>)
        requires
            old(fabric).wf(),
            a@.len() == b@.len(),
            a@.len() > 0 ==> old(fabric)@.has_room(15 * (a@.len() as int) + 4),
            old(fabric)@.triples.len() >= a@.len(),
        ensures
            final(fabric).wf(),
            final(fabric)@ == old(fabric)@.beaver_batch_mul_point(
                MpcScalarResult::share_ids(a@),
                Self::share_ids(b@),
            ),
            r@.len() == a@.len(),
            a@.len() > 0 ==> Self::share_ids(r@) == range_ids(
                old(fabric)@.next_result_id + 14 * a@.len() + 4,
                a@.len() as int,
            ) && final(fabric)@.advanced(old(fabric)@, 15 * (a@.len() as int) + 4, 14, a@.len() as int),
    {
        proof {
            reveal(FabricState::beaver_batch_mul_point);
        }
        if a.len() == 0 {
            return Vec::new();
        }
        let n = a.len();
        // Sample a set of beaver triples for the multiplications
        let (beaver_a, beaver_b, beaver_c) = fabric.next_beaver_triple_batch(n);
        let beaver_b_gen = Self::batch_mul_generator(fabric, beaver_b.as_slice());
        let masked_rhs = MpcScalarResult::batch_sub(fabric, a, beaver_a.as_slice());
        let masked_lhs = Self::batch_sub(fabric, b, beaver_b_gen.as_slice());
        let e_open = Self::open_batch(fabric, masked_lhs.as_slice());
        let d_open = MpcScalarResult::open_batch(fabric, masked_rhs.as_slice());
        // Identity [x * yG] = deG + d[bG] + [a]eG + [c]G
        let de = StarkPointResult::batch_mul(fabric, d_open.as_slice(), e_open.as_slice());
        let db = Self::batch_mul_public(fabric, d_open.as_slice(), beaver_b_gen.as_slice());
        let ae = Self::batch_mul_shared(fabric, beaver_a.as_slice(), e_open.as_slice());
        let cg = Self::batch_mul_generator(fabric, beaver_c.as_slice());
        let de_db = Self::batch_add_public(fabric, db.as_slice(), de.as_slice());
        let ae_c = Self::batch_add(fabric, ae.as_slice(), cg.as_slice());
        Self::batch_add(fabric, de_db.as_slice(), ae_c.as_slice())
    }
}

} // verus!
