//! Defines a malicious secure wrapper around an `MpcStarkPoint` type that includes a MAC
//! for ensuring computational integrity of an opened point

use vstd::prelude::*;

use crate::algebra::authenticated_scalar::flat_ids;
use crate::algebra::authenticated_scalar::triples_in_range;
use crate::algebra::authenticated_scalar::zip_triples;
use crate::algebra::authenticated_scalar::AuthenticatedIds;
use crate::algebra::authenticated_scalar::AuthenticatedScalarResult;
use crate::algebra::mpc_scalar::MpcScalarResult;
use crate::algebra::mpc_stark_point::MpcStarkPointResult;
use crate::algebra::scalar::Scalar;
use crate::algebra::scalar::ScalarResult;
use crate::algebra::stark_curve::point_sum;
use crate::algebra::stark_curve::StarkPoint;
use crate::algebra::stark_curve::StarkPointResult;
use crate::beaver::SharedValueSource;
use crate::commitment::commitment_of;
use crate::commitment::HashCommitment;
use crate::error::MpcError;
use crate::fabric::gate::BatchGateFunction;
use crate::fabric::gate::Constant;
use crate::fabric::gate::GateFunction;
use crate::fabric::gate::NetworkFunction;
use crate::fabric::result::ids_of;
use crate::fabric::result::range_ids;
use crate::fabric::result::ResultHandle;
use crate::fabric::result::ResultId;
use crate::fabric::result::ResultValue;
use crate::fabric::result::Value;
use crate::fabric::FabricState;
use crate::fabric::MpcFabric;
use crate::fabric::RESULT_IDENTITY;
use crate::fabric::RESULT_MAC_KEY;
use crate::fabric::RESULT_ZERO;
use crate::PARTY0;

verus! {

/// The number of results that the sum of two authenticated points declares
pub const SUM_RESULTS: usize = 3;

/// The number of results that the product of an authenticated point and an
/// authenticated scalar declares
pub const PRODUCT_RESULTS: usize = 88;

/// The number of results that opening an authenticated point declares
pub const OPENING_RESULTS: usize = 3;

/// The number of results that opening an authenticated point and checking
/// its MAC declares
pub const AUTHENTICATED_OPENING_RESULTS: usize = 13;

/// The number of results that a multiscalar multiplication of `n` points
/// declares
pub open spec fn msm_room(n: nat) -> int {
    72 * (n as int) + 13
}

/// The number of results that a multiscalar multiplication of `n` points
/// declares, if the number fits the machine
pub fn msm_results(n: usize) -> (r: Option<usize>)
    ensures
        r == (if msm_room(n as nat) <= usize::MAX {
            Some(msm_room(n as nat) as usize)
        } else {
            None
        }),
{
    if n <= (usize::MAX - 13) / 72 {
        Some(72 * n + 13)
    } else {
        None
    }
}

/// The number of underlying results in an `AuthenticatedStarkPointResult`
pub const AUTHENTICATED_STARK_POINT_RESULT_LEN: usize = 3;

/// The shares of a list of authenticated values
pub open spec fn shares_of(values: Seq<AuthenticatedIds>) -> Seq<ResultId> {
    Seq::new(values.len(), |i: int| values[i].share)
}

impl FabricState {
    /// The state after a shared point has been authenticated: its MAC is the
    /// product of the point and the MAC key, computed with a Beaver triple, and
    /// its public modifier is a newly allocated curve identity. The MAC is the
    /// 20th and the modifier the last of the 21 results declared.
    #[verifier::opaque]
    pub open spec fn auth_point_shared(self, value: ResultId) -> FabricState {
        self.beaver_mul_point(value, RESULT_MAC_KEY).allocate(
            Value::Point(StarkPoint::identity_spec()),
        )
    }

    /// The state after an authenticated point has been multiplied by an
    /// authenticated scalar with an authenticated Beaver triple `(a, b, c)`:
    /// the masked values `d = scalar - a` and `eG = point - bG` are opened, and the
    /// product is `d * eG + d * bG + a * eG + c * G`. The product is the last
    /// three of the 88 results declared.
    #[verifier::opaque]
    pub open spec fn auth_point_beaver_mul(self, point: AuthenticatedIds, scalar: AuthenticatedIds)
        -> FabricState {
        let n = self.next_result_id;
        let generator = GateFunction::MulConstant(Constant::Point(StarkPoint::generator_spec()));
        let a = AuthenticatedIds {
            share: n as usize,
            mac: (n + 19) as usize,
            public_modifier: RESULT_ZERO,
        };
        let b = AuthenticatedIds {
            share: (n + 1) as usize,
            mac: (n + 36) as usize,
            public_modifier: RESULT_ZERO,
        };
        let c = AuthenticatedIds {
            share: (n + 2) as usize,
            mac: (n + 53) as usize,
            public_modifier: RESULT_ZERO,
        };
        let e = (n + 63) as usize;
        let d = (n + 66) as usize;
        let de = (n + 67) as usize;
        let de_db = AuthenticatedIds {
            share: (n + 74) as usize,
            mac: (n + 72) as usize,
            public_modifier: (n + 75) as usize,
        };
        self.with_authenticated_triple().auth_masked(scalar, a).auth_each(
            b,
            generator,
        ).auth_masked(point, triples_in_range(n + 56, 1)[0]).opened((n + 59) as usize).opened(
            (n + 54) as usize,
        ).with_gate(seq![d, e], GateFunction::Mul).auth_each(b, generator).auth_times_public(
            triples_in_range(n + 68, 1)[0],
            d,
        ).auth_plus_public(triples_in_range(n + 71, 1)[0], de).auth_scalar_times(a, e).auth_sum(
            de_db,
            triples_in_range(n + 76, 1)[0],
        ).auth_each(c, generator).auth_sum(
            triples_in_range(n + 79, 1)[0],
            triples_in_range(n + 82, 1)[0],
        )
    }

    /// The state after a batch of authenticated points has been multiplied by
    /// a batch of authenticated scalars, element by element, with one
    /// authenticated Beaver triple for each product and one opening for all of
    /// the masked scalars and one for all of the masked points. The products are
    /// the last `3 n` of the `72 n + 10` results declared.
    #[verifier::opaque]
    pub open spec fn auth_point_beaver_batch_mul(
        self,
        scalars: Seq<AuthenticatedIds>,
        points: Seq<AuthenticatedIds>,
    ) -> FabricState {
        let n = scalars.len() as int;
        let first = self.next_result_id;
        let party_id = self.party_id;
        let beaver_a = zip_triples(
            range_ids(first, n),
            range_ids(first + 15 * n + 2, n),
            RESULT_ZERO,
        );
        let beaver_b = zip_triples(
            range_ids(first + n, n),
            range_ids(first + 28 * n + 4, n),
            RESULT_ZERO,
        );
        let beaver_c = zip_triples(
            range_ids(first + 2 * n, n),
            range_ids(first + 41 * n + 6, n),
            RESULT_ZERO,
        );
        let t = first + 42 * n + 6;
        let b_gen = triples_in_range(t, n);
        let masked_rhs = triples_in_range(t + 3 * n, n);
        let masked_lhs = triples_in_range(t + 6 * n, n);
        let e_open = range_ids(t + 9 * n + 2, n);
        let d_open = range_ids(t + 10 * n + 4, n);
        let de = range_ids(t + 11 * n + 4, n);
        let db = triples_in_range(t + 12 * n + 4, n);
        let ae = triples_in_range(t + 15 * n + 4, n);
        let cg = triples_in_range(t + 18 * n + 4, n);
        let de_db = triples_in_range(t + 21 * n + 4, n);
        let ae_c = triples_in_range(t + 24 * n + 4, n);
        if n == 0 {
            self
        } else {
            self.with_authenticated_triples(n).with_batch_gate(
                flat_ids(beaver_b),
                3 * n,
                BatchGateFunction::BatchMulGenerator,
            ).with_batch_gate(
                flat_ids(scalars) + flat_ids(beaver_a),
                3 * n,
                BatchGateFunction::BatchSub,
            ).with_batch_gate(
                flat_ids(points) + flat_ids(b_gen),
                3 * n,
                BatchGateFunction::BatchSub,
            ).opened_batch(shares_of(masked_lhs), NetworkFunction::SendPointBatch).opened_batch(
                shares_of(masked_rhs),
                NetworkFunction::SendScalarBatch,
            ).with_batch_gate(d_open + e_open, n, BatchGateFunction::BatchMul).with_batch_gate(
                d_open + flat_ids(b_gen),
                3 * n,
                BatchGateFunction::BatchMulPublic,
            ).with_batch_gate(
                flat_ids(beaver_a) + e_open,
                3 * n,
                BatchGateFunction::BatchMulAuthenticated,
            ).with_batch_gate(
                flat_ids(beaver_c),
                3 * n,
                BatchGateFunction::BatchMulGenerator,
            ).with_batch_gate(
                flat_ids(db) + de,
                3 * n,
                BatchGateFunction::BatchAddPublic { party_id },
            ).with_batch_gate(
                flat_ids(ae) + flat_ids(cg),
                3 * n,
                BatchGateFunction::BatchAdd,
            ).with_batch_gate(
                flat_ids(de_db) + flat_ids(ae_c),
                3 * n,
                BatchGateFunction::BatchAdd,
            )
        }
    }

    /// The state after a list of authenticated values has been added up, the
    /// second to the first, the third to their sum, and so on
    pub open spec fn auth_summed(self, values: Seq<AuthenticatedIds>) -> FabricState
        decreases values.len(),
    {
        if values.len() <= 1 {
            self
        } else {
            let rest = self.auth_summed(values.drop_last());
            let acc = if values.len() == 2 {
                values[0]
            } else {
                triples_in_range(self.next_result_id + 3 * (values.len() - 3), 1)[0]
            };
            rest.auth_sum(acc, values.last())
        }
    }

    /// The state after a multiscalar multiplication: the points are multiplied
    /// by the scalars, element by element, and one gate sums the products up.
    /// The sum is the last three of the `72 n + 13` results declared.
    #[verifier::opaque]
    pub open spec fn auth_msm(self, scalars: Seq<AuthenticatedIds>, points: Seq<AuthenticatedIds>)
        -> FabricState {
        let n = scalars.len() as int;
        self.auth_point_beaver_batch_mul(scalars, points).with_batch_gate(
            flat_ids(triples_in_range(self.next_result_id + 69 * n + 10, n)),
            3,
            BatchGateFunction::SumTriples,
        )
    }
}

/// A maliciously secure wrapper around `MpcStarkPoint` that includes a MAC as per
/// the SPDZ protocol: https://eprint.iacr.org/2011/535.pdf
#[derive(Debug)]
pub struct AuthenticatedStarkPointResult {
    /// The local secret share of the underlying authenticated point
    pub share: MpcStarkPointResult,
    /// A SPDZ style, unconditionally secure MAC of the value
    /// This is used to ensure computational integrity of the opened value
    /// See the doc comment in `AuthenticatedScalar` for more details
    pub mac: MpcStarkPointResult,
    /// The public modifier tracks additions and subtractions of public values to the shares
    ///
    /// Only the first party adds/subtracts public values to their share, but the other parties
    /// must track this to validate the MAC when it is opened
    pub public_modifier: StarkPointResult,
}

impl View for AuthenticatedStarkPointResult {
    type V = AuthenticatedIds;

    open spec fn view(&self) -> AuthenticatedIds {
        AuthenticatedIds {
            share: self.share.share.id,
            mac: self.mac.share.id,
            public_modifier: self.public_modifier.id,
        }
    }
}

impl Clone for AuthenticatedStarkPointResult {
    fn clone(&self) -> (r: Self)
        ensures
            r@ == self@,
    {
        AuthenticatedStarkPointResult {
            share: self.share.clone(),
            mac: self.mac.clone(),
            public_modifier: self.public_modifier.clone(),
        }
    }
}

impl AuthenticatedStarkPointResult {
    /// The results of a list of authenticated points
    pub open spec fn views(values: Seq<AuthenticatedStarkPointResult>) -> Seq<AuthenticatedIds> {
        Seq::new(values.len(), |i: int| values[i]@)
    }

    /// The three results of the value
    pub fn as_ids(&self) -> (r: AuthenticatedIds)
        ensures
            r == self@,
    {
        AuthenticatedIds {
            share: self.share.share.id,
            mac: self.mac.share.id,
            public_modifier: self.public_modifier.id,
        }
    }

    /// Creates a new `AuthenticatedStarkPoint` from a given underlying point
    ///
    /// The Beaver triples that the fabric lacks for it are drawn from the
    /// source first, in one request.
    pub fn new_shared<S: SharedValueSource>(fabric: &mut MpcFabric<S>, value: StarkPointResult) -> (r:
        AuthenticatedStarkPointResult)
        requires
            old(fabric).wf(),
            old(fabric)@.has_room(21),
        ensures
            final(fabric).wf(),
            r@ == (AuthenticatedIds {
                share: value.id,
                mac: (old(fabric)@.next_result_id + 19) as usize,
                public_modifier: (old(fabric)@.next_result_id + 20) as usize,
            }),
            old(fabric)@.triples.len() >= 1 ==> (final(fabric)@ == old(fabric)@.auth_point_shared(value.id)),
            old(fabric)@.triples.len() >= 1 ==> (final(fabric)@.advanced(old(fabric)@, 21, 15, 1)),
            exists|drawn: Seq<(Scalar, Scalar, Scalar)>|
                {
                    &&& #[trigger] old(fabric)@.draws(drawn, 1)
                    &&& (final(fabric)@ == old(fabric)@.with_drawn(drawn).auth_point_shared(value.id))
                    &&& (final(fabric)@.advanced(old(fabric)@.with_drawn(drawn), 21, 15, 1))
                },
    {
        proof {
            fabric.lemma_wf();
        }
        fabric.draw_missing_triples(1);
        let ghost drawn = fabric@.triples.skip(old(fabric)@.triples.len() as int);
        let r = Self::new_shared_with_triples(fabric, value);
        proof {
            assert(old(fabric)@.draws(drawn, 1));
        }
        r
    }

    /// The same, with the Beaver triples that it uses drawn beforehand
    fn new_shared_with_triples<S: SharedValueSource>(fabric: &mut MpcFabric<S>, value: StarkPointResult) -> (r:
        AuthenticatedStarkPointResult)
        requires
            old(fabric).wf(),
            old(fabric)@.has_room(21),
            old(fabric)@.triples.len() >= 1,
        ensures
            final(fabric).wf(),
            r@ == (AuthenticatedIds {
                share: value.id,
                mac: (old(fabric)@.next_result_id + 19) as usize,
                public_modifier: (old(fabric)@.next_result_id + 20) as usize,
            }),
            final(fabric)@ == old(fabric)@.auth_point_shared(value.id),
            final(fabric)@.advanced(old(fabric)@, 21, 15, 1),
    {
        proof {
            reveal(FabricState::auth_point_shared);
        }
        // Create an `MpcStarkPoint` from the value
        let mpc_value = MpcStarkPointResult::new_shared(value);
        let mac_key = MpcScalarResult::new_shared(fabric.mac_key());
        let mac = mpc_value.mul(fabric, &mac_key);
        // Allocate a zero point for the public modifier
        let public_modifier = fabric.allocate_point(StarkPoint::identity());
        AuthenticatedStarkPointResult { share: mpc_value, mac, public_modifier }
    }

    /// Creates a batch of `AuthenticatedStarkPoint`s from a given batch of underlying points
    ///
    /// The Beaver triples that the fabric lacks for it are drawn from the
    /// source first, in one request.
    pub fn new_shared_batch<S: SharedValueSource>(
        fabric: &mut MpcFabric<S>,
        values: &[StarkPointResult],
    ) -> (r: Vec<AuthenticatedStarkPointResult>)
        requires
            old(fabric).wf(),
            values@.len() > 0 ==> old(fabric)@.has_room(15 * (values@.len() as int) + 4),
        ensures
            final(fabric).wf(),
            old(fabric)@.triples.len() >= values@.len() ==> (final(fabric)@ == old(fabric)@.beaver_batch_mul_point(
                    Seq::new(values@.len(), |i: int| RESULT_MAC_KEY),
                    ids_of(values@),
                )),
            r@.len() == values@.len(),
            values@.len() > 0 ==> Self::views(r@) == zip_triples(
                ids_of(values@),
                range_ids(
                    old(fabric)@.next_result_id + 14 * values@.len() + 4,
                    values@.len() as int,
                ),
                RESULT_IDENTITY,
            ),
            old(fabric)@.triples.len() >= values@.len() ==> (values@.len() > 0 ==> final(fabric)@.advanced(
                    old(fabric)@,
                    15 * (values@.len() as int) + 4,
                    14,
                    values@.len() as int,
                )),
            exists|drawn: Seq<(Scalar, Scalar, Scalar)>|
                {
                    &&& #[trigger] old(fabric)@.draws(drawn, values@.len() as int)
                    &&& (final(fabric)@ == old(fabric)@.with_drawn(drawn).beaver_batch_mul_point(
                        Seq::new(values@.len(), |i: int| RESULT_MAC_KEY),
                        ids_of(values@),
                    ))
                    &&& (values@.len() > 0 ==> final(fabric)@.advanced(
                        old(fabric)@.with_drawn(drawn),
                        15 * (values@.len() as int) + 4,
                        14,
                        values@.len() as int,
                    ))
                },
    {
        proof {
            fabric.lemma_wf();
        }
        fabric.draw_missing_triples(values.len());
        let ghost drawn = fabric@.triples.skip(old(fabric)@.triples.len() as int);
        let r = Self::new_shared_batch_with_triples(fabric, values);
        proof {
            assert(old(fabric)@.draws(drawn, values@.len() as int));
        }
        r
    }

    /// The same, with the Beaver triples that it uses drawn beforehand
    fn new_shared_batch_with_triples<S: SharedValueSource>(
        fabric: &mut MpcFabric<S>,
        values: &[StarkPointResult],
    ) -> (r: Vec<AuthenticatedStarkPointResult>)
        requires
            old(fabric).wf(),
            values@.len() > 0 ==> old(fabric)@.has_room(15 * (values@.len() as int) + 4),
            old(fabric)@.triples.len() >= values@.len(),
        ensures
            final(fabric).wf(),
            final(fabric)@ == old(fabric)@.beaver_batch_mul_point(
                Seq::new(values@.len(), |i: int| RESULT_MAC_KEY),
                ids_of(values@),
            ),
            r@.len() == values@.len(),
            values@.len() > 0 ==> Self::views(r@) == zip_triples(
                ids_of(values@),
                range_ids(
                    old(fabric)@.next_result_id + 14 * values@.len() + 4,
                    values@.len() as int,
                ),
                RESULT_IDENTITY,
            ),
            values@.len() > 0 ==> final(fabric)@.advanced(
                old(fabric)@,
                15 * (values@.len() as int) + 4,
                14,
                values@.len() as int,
            ),
    {
        if values.len() == 0 {
            proof {
                reveal(FabricState::beaver_batch_mul_point);
            }
            return Vec::new();
        }
        // Create an `MpcStarkPoint` from the value
        let n = values.len();
        let first = fabric.next_result_id();
        let mut mpc_values: Vec<MpcStarkPointResult> = Vec::with_capacity(n);
        let mut mac_keys: Vec<MpcScalarResult> = Vec::with_capacity(n);
        let mut i: usize = 0;
        while i < n
            invariant
                i <= n,
                n == values@.len(),
                mpc_values@.len() == i,
                mac_keys@.len() == i,
                forall|j: int| 0 <= j < i ==> (#[trigger] mpc_values@[j]).share.id == values@[j].id,
                forall|j: int| 0 <= j < i ==> (#[trigger] mac_keys@[j]).value.id == RESULT_MAC_KEY,
            decreases n - i,
        {
            mpc_values.push(MpcStarkPointResult::new_shared(values[i].clone()));
            mac_keys.push(MpcScalarResult::new_shared(fabric.mac_key()));
            i += 1;
        }
        proof {
            assert(MpcStarkPointResult::share_ids(mpc_values@) =~= ids_of(values@));
            assert(MpcScalarResult::share_ids(mac_keys@) =~= Seq::new(
                values@.len(),
                |i: int| RESULT_MAC_KEY,
            ));
        }
        let macs = MpcStarkPointResult::batch_mul(
            fabric,
            mac_keys.as_slice(),
            mpc_values.as_slice(),
        );
        let mut result: Vec<AuthenticatedStarkPointResult> = Vec::with_capacity(n);
        let mut i: usize = 0;
        while i < n
            invariant
                i <= n,
                n == values@.len(),
                n == macs@.len(),
                result@.len() == i,
                MpcStarkPointResult::share_ids(macs@) == range_ids(first + 14 * n + 4, n as int),
                forall|j: int|
                    0 <= j < i ==> (#[trigger] result@[j])@ == (AuthenticatedIds {
                        share: values@[j].id,
                        mac: range_ids(first + 14 * n + 4, n as int)[j],
                        public_modifier: RESULT_IDENTITY,
                    }),
            decreases n - i,
        {
            proof {
                assert(MpcStarkPointResult::share_ids(macs@)[i as int] == macs@[i as int].share.id);
            }
            result.push(
                AuthenticatedStarkPointResult {
                    share: MpcStarkPointResult::new_shared(values[i].clone()),
                    mac: macs[i].clone(),
                    public_modifier: fabric.curve_identity(),
                },
            );
            i += 1;
        }
        proof {
            assert(Self::views(result@) =~= zip_triples(
                ids_of(values@),
                range_ids(first + 14 * n + 4, n as int),
                RESULT_IDENTITY,
            ));
        }
        result
    }

    /// Creates a batch of `AuthenticatedStarkPoint`s from a batch result
    ///
    /// The batch result combines the batch into one result, so it must be split out
    /// first before creating the `AuthenticatedStarkPointResult`s
    ///
    /// The Beaver triples that the fabric lacks for it are drawn from the
    /// source first, in one request.
    pub fn new_shared_from_batch_result<S: SharedValueSource>(
        fabric: &mut MpcFabric<S>,
        values: ResultHandle<Vec<StarkPoint>>,
        n: usize,
    ) -> (r: Vec<AuthenticatedStarkPointResult>)
        requires
            old(fabric).wf(),
            n >= 1,
            old(fabric)@.has_room(16 * n + 4),
        ensures
            final(fabric).wf(),
            old(fabric)@.triples.len() >= n ==> (final(fabric)@ == old(fabric)@.with_batch_gate(
                    seq![values.id],
                    n as int,
                    BatchGateFunction::Split,
                ).beaver_batch_mul_point(
                    Seq::new(n as nat, |i: int| RESULT_MAC_KEY),
                    range_ids(old(fabric)@.next_result_id, n as int),
                )),
            r@.len() == n,
            Self::views(r@) == zip_triples(
                range_ids(old(fabric)@.next_result_id, n as int),
                range_ids(old(fabric)@.next_result_id + 15 * n + 4, n as int),
                RESULT_IDENTITY,
            ),
            old(fabric)@.triples.len() >= n ==> (final(fabric)@.advanced(old(fabric)@, 16 * n + 4, 15, n as int)),
            exists|drawn: Seq<(Scalar, Scalar, Scalar)>|
                {
                    &&& #[trigger] old(fabric)@.draws(drawn, n as int)
                    &&& (final(fabric)@ == old(fabric)@.with_drawn(drawn).with_batch_gate(
                        seq![values.id],
                        n as int,
                        BatchGateFunction::Split,
                    ).beaver_batch_mul_point(
                        Seq::new(n as nat, |i: int| RESULT_MAC_KEY),
                        range_ids(old(fabric)@.next_result_id, n as int),
                    ))
                    &&& (final(fabric)@.advanced(old(fabric)@.with_drawn(drawn), 16 * n + 4, 15, n as int))
                },
    {
        proof {
            fabric.lemma_wf();
        }
        fabric.draw_missing_triples(n);
        let ghost drawn = fabric@.triples.skip(old(fabric)@.triples.len() as int);
        let r = Self::new_shared_from_batch_result_with_triples(fabric, values, n);
        proof {
            assert(old(fabric)@.draws(drawn, n as int));
        }
        r
    }

    /// The same, with the Beaver triples that it uses drawn beforehand
    fn new_shared_from_batch_result_with_triples<S: SharedValueSource>(
        fabric: &mut MpcFabric<S>,
        values: ResultHandle<Vec<StarkPoint>>,
        n: usize,
    ) -> (r: Vec<AuthenticatedStarkPointResult>)
        requires
            old(fabric).wf(),
            n >= 1,
            old(fabric)@.has_room(16 * n + 4),
            old(fabric)@.triples.len() >= n,
        ensures
            final(fabric).wf(),
            final(fabric)@ == old(fabric)@.with_batch_gate(
                seq![values.id],
                n as int,
                BatchGateFunction::Split,
            ).beaver_batch_mul_point(
                Seq::new(n as nat, |i: int| RESULT_MAC_KEY),
                range_ids(old(fabric)@.next_result_id, n as int),
            ),
            r@.len() == n,
            Self::views(r@) == zip_triples(
                range_ids(old(fabric)@.next_result_id, n as int),
                range_ids(old(fabric)@.next_result_id + 15 * n + 4, n as int),
                RESULT_IDENTITY,
            ),
            final(fabric)@.advanced(old(fabric)@, 16 * n + 4, 15, n as int),
    {
        // Convert to a set of point results
        let mut args: Vec<ResultId> = Vec::new();
        args.push(values.id);
        proof {
            assert(args@ =~= seq![values.id]);
        }
        let point_results: Vec<StarkPointResult> = fabric.new_batch_gate_op(
            args,
            n,
            BatchGateFunction::Split,
        );
        let r = Self::new_shared_batch(fabric, point_results.as_slice());
        proof {
            assert(old(fabric)@.triples.skip(0).skip(n as int) =~= old(fabric)@.triples.skip(
                n as int,
            ));
        }
        r
    }

    /// Get the ID of the underlying share's result
    pub fn id(&self) -> (r: ResultId)
        ensures
            r == self@.share,
    {
        self.share.id()
    }

    /// Get the IDs of the results that make up the `AuthenticatedStarkPointResult` representation
    pub fn ids(&self) -> (r: Vec<ResultId>)
        ensures
            r@ == seq![self@.share, self@.mac, self@.public_modifier],
    {
        let mut ids: Vec<ResultId> = Vec::new();
        ids.push(self.share.id());
        ids.push(self.mac.id());
        ids.push(self.public_modifier.id);
        assert(ids@ =~= seq![self@.share, self@.mac, self@.public_modifier]);
        ids
    }

    /// Get the underlying share as an `MpcStarkPoint`
    pub fn mpc_share(&self) -> (r: MpcStarkPointResult)
        ensures
            r.share.id == self@.share,
    {
        self.share.clone()
    }

    /// Open the value without checking the MAC
    pub fn open<S: SharedValueSource>(&self, fabric: &mut MpcFabric<S>) -> (r: StarkPointResult)
        requires
            old(fabric).wf(),
            old(fabric)@.has_room(OPENING_RESULTS as int),
        ensures
            final(fabric).wf(),
            r.id == old(fabric)@.next_result_id + 2,
            final(fabric)@ == old(fabric)@.opened(self@.share),
            final(fabric)@.advanced(old(fabric)@, 3, 2, 0),
    {
        self.share.open(fabric)
    }

    /// The shares of a list of authenticated points
    pub fn collect_shares(values: &[Self]) -> (r: Vec<MpcStarkPointResult>)
        ensures
            MpcStarkPointResult::share_ids(r@) == shares_of(Self::views(values@)),
            r@.len() == values@.len(),
    {
        let mut shares: Vec<MpcStarkPointResult> = Vec::with_capacity(values.len());
        let mut i: usize = 0;
        while i < values.len()
            invariant
                i <= values@.len(),
                shares@.len() == i,
                forall|j: int|
                    0 <= j < i ==> (#[trigger] shares@[j]).share.id == values@[j]@.share,
            decreases values@.len() - i,
        {
            shares.push(values[i].share.clone());
            i += 1;
        }
        assert(MpcStarkPointResult::share_ids(shares@) =~= shares_of(Self::views(values@)));
        shares
    }

    /// Open a batch of values without checking the MAC
    pub fn open_batch<S: SharedValueSource>(fabric: &mut MpcFabric<S>, values: &[Self]) -> (r: Vec<
        StarkPointResult,
    >)
        requires
            old(fabric).wf(),
            old(fabric)@.has_room(values@.len() as int + 2),
        ensures
            final(fabric).wf(),
            final(fabric)@ == old(fabric)@.opened_batch(
                shares_of(Self::views(values@)),
                NetworkFunction::SendPointBatch,
            ),
            r@.len() == values@.len(),
            values@.len() > 0 ==> ids_of(r@) == range_ids(
                old(fabric)@.next_result_id + 2,
                values@.len() as int,
            ) && final(fabric)@.advanced(old(fabric)@, values@.len() as int + 2, 2, 0),
    {
        let shares = Self::collect_shares(values);
        MpcStarkPointResult::open_batch(fabric, shares.as_slice())
    }

    /// Collect the results of a list of authenticated points, one value after
    /// the other
    pub fn collect_flat_ids(values: &[AuthenticatedStarkPointResult]) -> (r: Vec<ResultId>)
        ensures
            r@ == flat_ids(Self::views(values@)),
    {
        let mut ids: Vec<ResultId> = Vec::new();
        let mut i: usize = 0;
        while i < values.len()
            invariant
                i <= values@.len(),
                ids@.len() == 3 * i,
                forall|k: int|
                    0 <= k < 3 * i ==> (#[trigger] ids@[k]) == flat_ids(Self::views(values@))[k],
            decreases values@.len() - i,
        {
            ids.push(values[i].share.share.id);
            ids.push(values[i].mac.share.id);
            ids.push(values[i].public_modifier.id);
            i += 1;
        }
        assert(ids@ =~= flat_ids(Self::views(values@)));
        ids
    }

    /// Convert a flattened list of results into a batch of `AuthenticatedStarkPointResult`s
    ///
    /// We assume that the list has been flattened in the same order that `Self::ids` returns
    /// the values: `[share, mac, public_modifier]`
    pub fn from_flattened_iterator(handles: &[StarkPointResult]) -> (r: Vec<Self>)
        requires
            handles@.len() % 3 == 0,
        ensures
            r@.len() == handles@.len() / 3,
            flat_ids(Self::views(r@)) == ids_of(handles@),
            forall|i: int|
                0 <= i < r@.len() ==> (#[trigger] r@[i])@ == (AuthenticatedIds {
                    share: handles@[3 * i].id,
                    mac: handles@[3 * i + 1].id,
                    public_modifier: handles@[3 * i + 2].id,
                }),
    {
        let len = handles.len();
        let n = len / 3;
        let mut values: Vec<AuthenticatedStarkPointResult> = Vec::with_capacity(n);
        let mut i: usize = 0;
        while i < n
            invariant
                i <= n,
                len == handles@.len(),
                n == len / 3,
                len % 3 == 0,
                values@.len() == i,
                forall|j: int|
                    0 <= j < i ==> (#[trigger] values@[j])@ == (AuthenticatedIds {
                        share: handles@[3 * j].id,
                        mac: handles@[3 * j + 1].id,
                        public_modifier: handles@[3 * j + 2].id,
                    }),
            decreases n - i,
        {
            values.push(
                AuthenticatedStarkPointResult {
                    share: MpcStarkPointResult::new_shared(handles[3 * i].clone()),
                    mac: MpcStarkPointResult::new_shared(handles[3 * i + 1].clone()),
                    public_modifier: handles[3 * i + 2].clone(),
                },
            );
            i += 1;
        }
        assert(flat_ids(Self::views(values@)) =~= ids_of(handles@));
        values
    }

    /// Authenticated points over the results of a gate with `3 n` results
    fn from_gate_results(handles: Vec<StarkPointResult>, Ghost(first): Ghost<int>) -> (r: Vec<Self>)
        requires
            handles@.len() % 3 == 0,
            ids_of(handles@) == range_ids(first, handles@.len() as int),
        ensures
            r@.len() == handles@.len() / 3,
            Self::views(r@) == triples_in_range(first, (handles@.len() / 3) as int),
    {
        let r = Self::from_flattened_iterator(handles.as_slice());
        proof {
            assert forall|i: int| 0 <= i < r@.len() implies Self::views(r@)[i] == triples_in_range(
                first,
                (handles@.len() / 3) as int,
            )[i] by {
                assert(ids_of(handles@)[3 * i] == handles@[3 * i].id);
                assert(ids_of(handles@)[3 * i + 1] == handles@[3 * i + 1].id);
                assert(ids_of(handles@)[3 * i + 2] == handles@[3 * i + 2].id);
            }
            assert(Self::views(r@) =~= triples_in_range(first, (handles@.len() / 3) as int));
        }
        r
    }

    /// Verify the MAC check on an authenticated opening: the peer's share of
    /// the MAC check must open the commitment that the peer sent before, and the
    /// two shares must add up to the curve identity
    pub fn verify_mac_check(
        my_mac_share: StarkPoint,
        peer_mac_share: StarkPoint,
        peer_mac_commitment: Scalar,
        peer_blinder: Scalar,
    ) -> (r: bool)
        ensures
            r == (peer_mac_commitment == commitment_of(peer_mac_share.encoding(), peer_blinder)
                && point_sum(my_mac_share, peer_mac_share) == StarkPoint::identity_spec()),
            Value::mac_verdict(
                Value::Point(my_mac_share),
                Value::Point(peer_mac_share),
                Value::Scalar(peer_blinder),
                Value::Scalar(peer_mac_commitment),
            ) == Some(Value::Scalar(Scalar::of_nat(if r { 1nat } else { 0nat }))),
    {
        // Check that the MAC check value is the correct opening of the
        // given commitment
        let peer_comm = HashCommitment {
            value: peer_mac_share,
            blinder: peer_blinder,
            commitment: peer_mac_commitment,
        };
        if !peer_comm.verify() {
            return false;
        }
        // Check that the MAC check shares add up to the additive identity in
        // the Starknet curve group
        if !my_mac_share.add(&peer_mac_share).equals(&StarkPoint::identity()) {
            return false;
        }
        true
    }

    /// Open the value and check the MAC, with a fresh random blinder for the
    /// commitment to the MAC check share
    ///
    /// This follows the protocol detailed in
    ///     https://securecomputation.org/docs/pragmaticmpc.pdf
    pub fn open_authenticated<S: SharedValueSource>(&self, fabric: &mut MpcFabric<S>) -> (r:
        AuthenticatedStarkPointOpenResult)
        requires
            old(fabric).wf(),
            old(fabric)@.has_room(AUTHENTICATED_OPENING_RESULTS as int),
        ensures
            final(fabric).wf(),
            r.value.id == old(fabric)@.next_result_id + 2,
            r.mac_check.id == old(fabric)@.next_result_id + 12,
            exists|blinder: Scalar|
                final(fabric)@ == #[trigger] old(fabric)@.auth_opened(self@, blinder),
            final(fabric)@.advanced(old(fabric)@, 13, 8, 0),
    {
        let blinder = Scalar::random();
        self.open_authenticated_with_blinder(fabric, blinder)
    }

    /// Open the value and check the MAC, with a given blinder for the
    /// commitment to the MAC check share
    pub fn open_authenticated_with_blinder<S: SharedValueSource>(
        &self,
        fabric: &mut MpcFabric<S>,
        blinder: Scalar,
    ) -> (r: AuthenticatedStarkPointOpenResult)
        requires
            old(fabric).wf(),
            old(fabric)@.has_room(AUTHENTICATED_OPENING_RESULTS as int),
        ensures
            final(fabric).wf(),
            r.value.id == old(fabric)@.next_result_id + 2,
            r.mac_check.id == old(fabric)@.next_result_id + 12,
            final(fabric)@ == old(fabric)@.auth_opened(self@, blinder),
            final(fabric)@.advanced(old(fabric)@, 13, 8, 0),
    {
        let (value, mac_check) = fabric.open_authenticated_ids(self.as_ids(), blinder);
        AuthenticatedStarkPointOpenResult {
            value: ResultHandle::new(value),
            mac_check: ResultHandle::new(mac_check),
        }
    }

    /// Open a batch of values and check the MACs, with fresh random blinders
    /// for the commitments to the MAC check shares
    pub fn open_authenticated_batch<S: SharedValueSource>(
        fabric: &mut MpcFabric<S>,
        values: &[Self],
    ) -> (r: Vec<AuthenticatedStarkPointOpenResult>)
        requires
            old(fabric).wf(),
            values@.len() > 0 ==> old(fabric)@.has_room(5 * (values@.len() as int) + 8),
        ensures
            final(fabric).wf(),
            r@.len() == values@.len(),
            forall|i: int|
                0 <= i < r@.len() ==> (#[trigger] r@[i]).value.id == old(fabric)@.next_result_id
                    + 2 + i && r@[i].mac_check.id == old(fabric)@.next_result_id + 4
                    * values@.len() + 8 + i,
            exists|blinders: Seq<Scalar>|
                blinders.len() == values@.len() && final(fabric)@ == #[trigger] old(
                    fabric,
                )@.auth_opened_batch(
                    Self::views(values@),
                    NetworkFunction::SendPointBatch,
                    blinders,
                ),
    {
        let mut blinders: Vec<Scalar> = Vec::with_capacity(values.len());
        let mut i: usize = 0;
        while i < values.len()
            invariant
                i <= values@.len(),
                blinders@.len() == i,
            decreases values@.len() - i,
        {
            blinders.push(Scalar::random());
            i += 1;
        }
        let ghost drawn = blinders@;
        let r = Self::open_authenticated_batch_with_blinders(fabric, values, blinders);
        proof {
            assert(final(fabric)@ == old(fabric)@.auth_opened_batch(
                Self::views(values@),
                NetworkFunction::SendPointBatch,
                drawn,
            ));
        }
        r
    }

    /// Open a batch of values and check the MACs, with given blinders for the
    /// commitments to the MAC check shares
    pub fn open_authenticated_batch_with_blinders<S: SharedValueSource>(
        fabric: &mut MpcFabric<S>,
        values: &[Self],
        blinders: Vec<Scalar>,
    ) -> (r: Vec<AuthenticatedStarkPointOpenResult>)
        requires
            old(fabric).wf(),
            blinders@.len() == values@.len(),
            values@.len() > 0 ==> old(fabric)@.has_room(5 * (values@.len() as int) + 8),
        ensures
            final(fabric).wf(),
            r@.len() == values@.len(),
            forall|i: int|
                0 <= i < r@.len() ==> (#[trigger] r@[i]).value.id == old(fabric)@.next_result_id
                    + 2 + i && r@[i].mac_check.id == old(fabric)@.next_result_id + 4
                    * values@.len() + 8 + i,
            final(fabric)@ == old(fabric)@.auth_opened_batch(
                Self::views(values@),
                NetworkFunction::SendPointBatch,
                blinders@,
            ),
    {
        if values.len() == 0 {
            proof {
                reveal(FabricState::auth_opened_batch);
            }
            return Vec::new();
        }
        let n = values.len();
        let mut ids: Vec<AuthenticatedIds> = Vec::with_capacity(n);
        let mut i: usize = 0;
        while i < n
            invariant
                i <= n,
                n == values@.len(),
                ids@.len() == i,
                forall|j: int| 0 <= j < i ==> (#[trigger] ids@[j]) == values@[j]@,
            decreases n - i,
        {
            ids.push(values[i].as_ids());
            i += 1;
        }
        proof {
            assert(ids@ =~= Self::views(values@));
            fabric.lemma_wf();
        }
        let (opened, checks) = fabric.open_authenticated_batch_ids(
            &ids,
            NetworkFunction::SendPointBatch,
            blinders,
        );
        // Return the results
        let mut results: Vec<AuthenticatedStarkPointOpenResult> = Vec::with_capacity(n);
        let mut i: usize = 0;
        while i < n
            invariant
                i <= n,
                n == values@.len(),
                opened + 4 * n + 6 == checks,
                checks + n <= usize::MAX,
                results@.len() == i,
                forall|j: int|
                    0 <= j < i ==> (#[trigger] results@[j]).value.id == opened + j
                        && results@[j].mac_check.id == checks + j,
            decreases n - i,
        {
            results.push(
                AuthenticatedStarkPointOpenResult {
                    value: ResultHandle::new(opened + i),
                    mac_check: ResultHandle::new(checks + i),
                },
            );
            i += 1;
        }
        results
    }

    /// Add up a list of authenticated points, of which there is at least one
    pub fn sum<S: SharedValueSource>(fabric: &mut MpcFabric<S>, values: &[Self]) -> (r: Self)
        requires
            old(fabric).wf(),
            values@.len() >= 1,
            old(fabric)@.has_room(3 * (values@.len() as int)),
        ensures
            final(fabric).wf(),
            final(fabric)@ == old(fabric)@.auth_summed(Self::views(values@)),
            r@ == (if values@.len() == 1 {
                values@[0]@
            } else {
                triples_in_range(
                    old(fabric)@.next_result_id + 3 * (values@.len() as int - 2),
                    1,
                )[0]
            }),
            final(fabric)@.advanced(
                old(fabric)@,
                3 * (values@.len() as int - 1),
                3 * (values@.len() as int - 1),
                0,
            ),
    {
        let ghost s0 = fabric@;
        let ghost all = Self::views(values@);
        let mut acc = values[0].clone();
        let mut i: usize = 1;
        proof {
            assert(all.subrange(0, 1).drop_last() =~= Seq::<AuthenticatedIds>::empty());
            reveal_with_fuel(FabricState::auth_summed, 2);
            assert(s0.triples.skip(0) =~= s0.triples);
        }
        while i < values.len()
            invariant
                1 <= i <= values@.len(),
                all == Self::views(values@),
                fabric.wf(),
                s0.has_room(3 * (values@.len() as int)),
                fabric@ == s0.auth_summed(all.subrange(0, i as int)),
                fabric@.advanced(s0, 3 * (i - 1), 3 * (i - 1), 0),
                acc@ == (if i == 1 {
                    values@[0]@
                } else {
                    triples_in_range(s0.next_result_id + 3 * (i - 2), 1)[0]
                }),
            decreases values@.len() - i,
        {
            let ghost before = fabric@;
            acc = acc.add(fabric, &values[i]);
            proof {
                let next = all.subrange(0, i + 1);
                assert(next.drop_last() =~= all.subrange(0, i as int));
                assert(next.last() == values@[i as int]@);
                assert(fabric@.triples =~= s0.triples.skip(0));
            }
            i += 1;
        }
        proof {
            assert(all.subrange(0, i as int) =~= all);
        }
        acc
    }

    // --------------
    // | Arithmetic |
    // --------------

    /// Add a public point to an authenticated point
    pub fn add_point<S: SharedValueSource>(&self, fabric: &mut MpcFabric<S>, other: StarkPoint) -> (r:
        AuthenticatedStarkPointResult)
        requires
            old(fabric).wf(),
            old(fabric)@.has_room(2),
        ensures
            final(fabric).wf(),
            r@ == (AuthenticatedIds {
                share: old(fabric)@.next_result_id as usize,
                mac: self@.mac,
                public_modifier: (old(fabric)@.next_result_id + 1) as usize,
            }),
            final(fabric)@ == old(fabric)@.auth_plus_constant(self@, Constant::Point(other)),
            final(fabric)@.advanced(old(fabric)@, 2, 2, 0),
    {
        // Party zero adds the public value to their share; the other party declares a gate
        // that passes its share on, to keep in sync with party 0
        let new_share = self.share.add_point(fabric, other);
        // Subtract the public value from the modifier
        let new_modifier = self.public_modifier.sub_point(fabric, other);
        AuthenticatedStarkPointResult {
            share: new_share,
            mac: self.mac.clone(),
            public_modifier: new_modifier,
        }
    }

    /// Add a public point result to an authenticated point
    pub fn add_result<S: SharedValueSource>(
        &self,
        fabric: &mut MpcFabric<S>,
        other: &StarkPointResult,
    ) -> (r: AuthenticatedStarkPointResult)
        requires
            old(fabric).wf(),
            old(fabric)@.has_room(2),
        ensures
            final(fabric).wf(),
            r@ == (AuthenticatedIds {
                share: old(fabric)@.next_result_id as usize,
                mac: self@.mac,
                public_modifier: (old(fabric)@.next_result_id + 1) as usize,
            }),
            final(fabric)@ == old(fabric)@.auth_plus_public(self@, other.id),
            final(fabric)@.advanced(old(fabric)@, 2, 2, 0),
    {
        let new_share = if fabric.party_id() == PARTY0 {
            // Party zero adds the public value to their share
            self.share.add_result(fabric, other)
        } else {
            // Other parties pass their share on to allocate a new op and keep
            // in sync with party 0
            MpcStarkPointResult { share: fabric.unary_gate(self.share.share.id, GateFunction::Pass) }
        };
        // Subtract the public value from the modifier
        let new_modifier = self.public_modifier.sub(fabric, other);
        AuthenticatedStarkPointResult {
            share: new_share,
            mac: self.mac.clone(),
            public_modifier: new_modifier,
        }
    }

    /// Add two authenticated points
    pub fn add<S: SharedValueSource>(
        &self,
        fabric: &mut MpcFabric<S>,
        other: &AuthenticatedStarkPointResult,
    ) -> (r: AuthenticatedStarkPointResult)
        requires
            old(fabric).wf(),
            old(fabric)@.has_room(SUM_RESULTS as int),
        ensures
            final(fabric).wf(),
            r@ == triples_in_range(old(fabric)@.next_result_id, 1)[0],
            final(fabric)@ == old(fabric)@.auth_sum(self@, other@),
            final(fabric)@.advanced(old(fabric)@, 3, 3, 0),
    {
        let new_share = self.share.add(fabric, &other.share);
        let new_mac = self.mac.add(fabric, &other.mac);
        let new_modifier = self.public_modifier.add(fabric, &other.public_modifier);
        AuthenticatedStarkPointResult { share: new_share, mac: new_mac, public_modifier: new_modifier }
    }

    /// Subtract a public point from an authenticated point
    pub fn sub_point<S: SharedValueSource>(&self, fabric: &mut MpcFabric<S>, other: StarkPoint) -> (r:
        AuthenticatedStarkPointResult)
        requires
            old(fabric).wf(),
            old(fabric)@.has_room(2),
        ensures
            final(fabric).wf(),
            r@ == (AuthenticatedIds {
                share: old(fabric)@.next_result_id as usize,
                mac: self@.mac,
                public_modifier: (old(fabric)@.next_result_id + 1) as usize,
            }),
            final(fabric)@ == old(fabric)@.auth_minus_constant(self@, Constant::Point(other)),
            final(fabric)@.advanced(old(fabric)@, 2, 2, 0),
    {
        // Party zero subtracts the public value from their share
        let new_share = self.share.sub_point(fabric, other);
        // Add the public value to the modifier
        let new_modifier = self.public_modifier.add_point(fabric, other);
        AuthenticatedStarkPointResult {
            share: new_share,
            mac: self.mac.clone(),
            public_modifier: new_modifier,
        }
    }

    /// Subtract a public point result from an authenticated point
    pub fn sub_result<S: SharedValueSource>(
        &self,
        fabric: &mut MpcFabric<S>,
        other: &StarkPointResult,
    ) -> (r: AuthenticatedStarkPointResult)
        requires
            old(fabric).wf(),
            old(fabric)@.has_room(2),
        ensures
            final(fabric).wf(),
            r@ == (AuthenticatedIds {
                share: old(fabric)@.next_result_id as usize,
                mac: self@.mac,
                public_modifier: (old(fabric)@.next_result_id + 1) as usize,
            }),
            final(fabric)@ == old(fabric)@.auth_minus_public(self@, other.id),
            final(fabric)@.advanced(old(fabric)@, 2, 2, 0),
    {
        let new_share = if fabric.party_id() == PARTY0 {
            // Party zero subtracts the public value from their share
            self.share.sub_result(fabric, other)
        } else {
            MpcStarkPointResult { share: fabric.unary_gate(self.share.share.id, GateFunction::Pass) }
        };
        // Add the public value to the modifier
        let new_modifier = self.public_modifier.add(fabric, other);
        AuthenticatedStarkPointResult {
            share: new_share,
            mac: self.mac.clone(),
            public_modifier: new_modifier,
        }
    }

    /// Subtract an authenticated point from another: shares, MACs and public
    /// modifiers are subtracted
    pub fn sub<S: SharedValueSource>(
        &self,
        fabric: &mut MpcFabric<S>,
        other: &AuthenticatedStarkPointResult,
    ) -> (r: AuthenticatedStarkPointResult)
        requires
            old(fabric).wf(),
            old(fabric)@.has_room(3),
        ensures
            final(fabric).wf(),
            r@ == triples_in_range(old(fabric)@.next_result_id, 1)[0],
            final(fabric)@ == old(fabric)@.auth_difference(self@, other@),
            final(fabric)@.advanced(old(fabric)@, 3, 3, 0),
    {
        let new_share = self.share.sub(fabric, &other.share);
        let new_mac = self.mac.sub(fabric, &other.mac);
        let new_modifier = self.public_modifier.sub(fabric, &other.public_modifier);
        AuthenticatedStarkPointResult {
            share: new_share,
            mac: new_mac,
            public_modifier: new_modifier,
        }
    }

    /// Mask an authenticated point by a value derived from a Beaver triple:
    /// share and MAC are subtracted. The public modifier of such a value is the
    /// identity, so that of the point is that of the difference.
    fn masked_by<S: SharedValueSource>(
        &self,
        fabric: &mut MpcFabric<S>,
        other: &AuthenticatedStarkPointResult,
    ) -> (r: AuthenticatedStarkPointResult)
        requires
            old(fabric).wf(),
            old(fabric)@.has_room(2),
        ensures
            final(fabric).wf(),
            r@ == (AuthenticatedIds {
                share: old(fabric)@.next_result_id as usize,
                mac: (old(fabric)@.next_result_id + 1) as usize,
                public_modifier: self@.public_modifier,
            }),
            final(fabric)@ == old(fabric)@.auth_masked(self@, other@),
            final(fabric)@.advanced(old(fabric)@, 2, 2, 0),
    {
        let new_share = self.share.sub(fabric, &other.share);
        let new_mac = self.mac.sub(fabric, &other.mac);
        AuthenticatedStarkPointResult {
            share: new_share,
            mac: new_mac,
            public_modifier: self.public_modifier.clone(),
        }
    }

    /// Negate an authenticated point; the public modifier is kept
    pub fn neg<S: SharedValueSource>(&self, fabric: &mut MpcFabric<S>) -> (r:
        AuthenticatedStarkPointResult)
        requires
            old(fabric).wf(),
            old(fabric)@.has_room(2),
        ensures
            final(fabric).wf(),
            r@ == (AuthenticatedIds {
                share: old(fabric)@.next_result_id as usize,
                mac: (old(fabric)@.next_result_id + 1) as usize,
                public_modifier: self@.public_modifier,
            }),
            final(fabric)@ == old(fabric)@.auth_negation(self@),
            final(fabric)@.advanced(old(fabric)@, 2, 2, 0),
    {
        let new_share = self.share.neg(fabric);
        let new_mac = self.mac.neg(fabric);
        AuthenticatedStarkPointResult {
            share: new_share,
            mac: new_mac,
            public_modifier: self.public_modifier.clone(),
        }
    }

    /// Multiply an authenticated point by a public scalar
    pub fn mul_scalar<S: SharedValueSource>(&self, fabric: &mut MpcFabric<S>, other: Scalar) -> (r:
        AuthenticatedStarkPointResult)
        requires
            old(fabric).wf(),
            old(fabric)@.has_room(3),
        ensures
            final(fabric).wf(),
            r@ == triples_in_range(old(fabric)@.next_result_id, 1)[0],
            final(fabric)@ == old(fabric)@.auth_each(
                self@,
                GateFunction::MulConstant(Constant::Scalar(other)),
            ),
            final(fabric)@.advanced(old(fabric)@, 3, 3, 0),
    {
        let new_share = self.share.mul_scalar(fabric, other);
        let new_mac = self.mac.mul_scalar(fabric, other);
        let new_modifier = self.public_modifier.mul_scalar(fabric, other);
        AuthenticatedStarkPointResult { share: new_share, mac: new_mac, public_modifier: new_modifier }
    }

    /// Multiply an authenticated point by a public scalar result
    pub fn mul_result<S: SharedValueSource>(
        &self,
        fabric: &mut MpcFabric<S>,
        other: &ScalarResult,
    ) -> (r: AuthenticatedStarkPointResult)
        requires
            old(fabric).wf(),
            old(fabric)@.has_room(3),
        ensures
            final(fabric).wf(),
            r@ == triples_in_range(old(fabric)@.next_result_id, 1)[0],
            final(fabric)@ == old(fabric)@.auth_times_public(self@, other.id),
            final(fabric)@.advanced(old(fabric)@, 3, 3, 0),
    {
        let new_share = self.share.mul_result(fabric, other);
        let new_mac = self.mac.mul_result(fabric, other);
        let new_modifier = self.public_modifier.mul(fabric, other);
        AuthenticatedStarkPointResult { share: new_share, mac: new_mac, public_modifier: new_modifier }
    }

    /// The product of an authenticated scalar and a public point result
    pub fn scalar_times_result<S: SharedValueSource>(
        fabric: &mut MpcFabric<S>,
        scalar: &AuthenticatedScalarResult,
        point: &StarkPointResult,
    ) -> (r: AuthenticatedStarkPointResult)
        requires
            old(fabric).wf(),
            old(fabric)@.has_room(3),
        ensures
            final(fabric).wf(),
            r@ == triples_in_range(old(fabric)@.next_result_id, 1)[0],
            final(fabric)@ == old(fabric)@.auth_scalar_times(scalar@, point.id),
            final(fabric)@.advanced(old(fabric)@, 3, 3, 0),
    {
        let share = scalar.share.value.mul_point(fabric, point);
        let mac = scalar.mac.value.mul_point(fabric, point);
        let modifier = scalar.public_modifier.mul_point(fabric, point);
        AuthenticatedStarkPointResult {
            share: MpcStarkPointResult::new_shared(share),
            mac: MpcStarkPointResult::new_shared(mac),
            public_modifier: modifier,
        }
    }

    /// The product of an authenticated scalar and a public point
    pub fn scalar_times_point<S: SharedValueSource>(
        fabric: &mut MpcFabric<S>,
        scalar: &AuthenticatedScalarResult,
        point: StarkPoint,
    ) -> (r: AuthenticatedStarkPointResult)
        requires
            old(fabric).wf(),
            old(fabric)@.has_room(3),
        ensures
            final(fabric).wf(),
            r@ == triples_in_range(old(fabric)@.next_result_id, 1)[0],
            final(fabric)@ == old(fabric)@.auth_each(
                scalar@,
                GateFunction::MulConstant(Constant::Point(point)),
            ),
            final(fabric)@.advanced(old(fabric)@, 3, 3, 0),
    {
        let share = scalar.share.value.mul_constant_point(fabric, point);
        let mac = scalar.mac.value.mul_constant_point(fabric, point);
        let modifier = scalar.public_modifier.mul_constant_point(fabric, point);
        AuthenticatedStarkPointResult {
            share: MpcStarkPointResult::new_shared(share),
            mac: MpcStarkPointResult::new_shared(mac),
            public_modifier: modifier,
        }
    }

    /// Multiply an authenticated point by an authenticated scalar with the
    /// Beaver trick
    ///
    /// The Beaver triples that the fabric lacks for it are drawn from the
    /// source first, in one request.
    pub fn mul<S: SharedValueSource>(
        &self,
        fabric: &mut MpcFabric<S>,
        rhs: &AuthenticatedScalarResult,
    ) -> (r: AuthenticatedStarkPointResult)
        requires
            old(fabric).wf(),
            old(fabric)@.has_room(PRODUCT_RESULTS as int),
        ensures
            final(fabric).wf(),
            r@ == triples_in_range(old(fabric)@.next_result_id + 85, 1)[0],
            old(fabric)@.triples.len() >= 4 ==> (final(fabric)@ == old(fabric)@.auth_point_beaver_mul(self@, rhs@)),
            old(fabric)@.triples.len() >= 4 ==> (final(fabric)@.advanced(old(fabric)@, 88, 68, 4)),
            exists|drawn: Seq<(Scalar, Scalar, Scalar)>|
                {
                    &&& #[trigger] old(fabric)@.draws(drawn, 4)
                    &&& (final(fabric)@ == old(fabric)@.with_drawn(drawn).auth_point_beaver_mul(self@, rhs@))
                    &&& (final(fabric)@.advanced(old(fabric)@.with_drawn(drawn), 88, 68, 4))
                },
    {
        proof {
            fabric.lemma_wf();
        }
        fabric.draw_missing_triples(4);
        let ghost drawn = fabric@.triples.skip(old(fabric)@.triples.len() as int);
        let r = self.mul_with_triples(fabric, rhs);
        proof {
            assert(old(fabric)@.draws(drawn, 4));
        }
        r
    }

    /// The same, with the Beaver triples that it uses drawn beforehand
    fn mul_with_triples<S: SharedValueSource>(
        &self,
        fabric: &mut MpcFabric<S>,
        rhs: &AuthenticatedScalarResult,
    ) -> (r: AuthenticatedStarkPointResult)
        requires
            old(fabric).wf(),
            old(fabric)@.has_room(PRODUCT_RESULTS as int),
            old(fabric)@.triples.len() >= 4,
        ensures
            final(fabric).wf(),
            r@ == triples_in_range(old(fabric)@.next_result_id + 85, 1)[0],
            final(fabric)@ == old(fabric)@.auth_point_beaver_mul(self@, rhs@),
            final(fabric)@.advanced(old(fabric)@, 88, 68, 4),
    {
        proof {
            reveal(FabricState::auth_point_beaver_mul);
        }
        // Sample a beaver triple
        let generator = StarkPoint::generator();
        let (a, b, c) = fabric.next_authenticated_triple();
        // Open the values d = [rhs - a] and e = [lhs - bG] for curve group generator G
        let masked_rhs = rhs.masked_by(fabric, &a);
        let b_gen = Self::scalar_times_point(fabric, &b, generator);
        let masked_lhs = self.masked_by(fabric, &b_gen);
        let e_open = masked_lhs.open(fabric);
        let d_open = masked_rhs.open(fabric);
        // Identity [x * yG] = deG + d[bG] + [a]eG + [c]G
        let de = e_open.mul(fabric, &d_open);
        let b_gen = Self::scalar_times_point(fabric, &b, generator);
        let db = b_gen.mul_result(fabric, &d_open);
        let de_db = db.add_result(fabric, &de);
        let ae = Self::scalar_times_result(fabric, &a, &e_open);
        let sum = de_db.add(fabric, &ae);
        let cg = Self::scalar_times_point(fabric, &c, generator);
        sum.add(fabric, &cg)
    }

    /// Add two batches of `AuthenticatedStarkPointResult`s
    pub fn batch_add<S: SharedValueSource>(
        fabric: &mut MpcFabric<S>,
        a: &[AuthenticatedStarkPointResult],
        b: &[AuthenticatedStarkPointResult],
    ) -> (r: Vec<AuthenticatedStarkPointResult>)
        requires
            old(fabric).wf(),
            a@.len() == b@.len(),
            old(fabric)@.has_room(3 * (a@.len() as int)),
        ensures
            final(fabric).wf(),
            final(fabric)@ == (if a@.len() == 0 {
                old(fabric)@
            } else {
                old(fabric)@.with_batch_gate(
                    flat_ids(Self::views(a@)) + flat_ids(Self::views(b@)),
                    3 * (a@.len() as int),
                    BatchGateFunction::BatchAdd,
                )
            }),
            r@.len() == a@.len(),
            Self::views(r@) == triples_in_range(old(fabric)@.next_result_id, a@.len() as int),
            a@.len() > 0 ==> final(fabric)@.advanced(old(fabric)@, 3 * (a@.len() as int), 1, 0),
    {
        if a.len() == 0 {
            let r: Vec<AuthenticatedStarkPointResult> = Vec::new();
            assert(Self::views(r@) =~= triples_in_range(old(fabric)@.next_result_id, 0));
            return r;
        }
        proof {
            fabric.lemma_wf();
        }
        let n = a.len();
        let ghost first = old(fabric)@.next_result_id;
        let res: Vec<StarkPointResult> = fabric.batch_gate(
            Self::collect_flat_ids(a),
            Self::collect_flat_ids(b),
            AUTHENTICATED_STARK_POINT_RESULT_LEN * n,
            BatchGateFunction::BatchAdd,
        );
        Self::from_gate_results(res, Ghost(first))
    }

    /// Add a batch of `AuthenticatedStarkPointResult`s to a batch of `StarkPointResult`s
    pub fn batch_add_public<S: SharedValueSource>(
        fabric: &mut MpcFabric<S>,
        a: &[AuthenticatedStarkPointResult],
        b: &[StarkPointResult],
    ) -> (r: Vec<AuthenticatedStarkPointResult>)
        requires
            old(fabric).wf(),
            a@.len() == b@.len(),
            old(fabric)@.has_room(3 * (a@.len() as int)),
        ensures
            final(fabric).wf(),
            final(fabric)@ == (if a@.len() == 0 {
                old(fabric)@
            } else {
                old(fabric)@.with_batch_gate(
                    flat_ids(Self::views(a@)) + ids_of(b@),
                    3 * (a@.len() as int),
                    BatchGateFunction::BatchAddPublic { party_id: old(fabric)@.party_id },
                )
            }),
            r@.len() == a@.len(),
            Self::views(r@) == triples_in_range(old(fabric)@.next_result_id, a@.len() as int),
            a@.len() > 0 ==> final(fabric)@.advanced(old(fabric)@, 3 * (a@.len() as int), 1, 0),
    {
        if a.len() == 0 {
            let r: Vec<AuthenticatedStarkPointResult> = Vec::new();
            assert(Self::views(r@) =~= triples_in_range(old(fabric)@.next_result_id, 0));
            return r;
        }
        proof {
            fabric.lemma_wf();
        }
        let n = a.len();
        let party_id = fabric.party_id();
        let ghost first = old(fabric)@.next_result_id;
        let res: Vec<StarkPointResult> = fabric.batch_gate(
            Self::collect_flat_ids(a),
            crate::fabric::result::collect_ids(b),
            AUTHENTICATED_STARK_POINT_RESULT_LEN * n,
            BatchGateFunction::BatchAddPublic { party_id },
        );
        Self::from_gate_results(res, Ghost(first))
    }

    /// Subtract a batch of `AuthenticatedStarkPointResult`s from another
    pub fn batch_sub<S: SharedValueSource>(
        fabric: &mut MpcFabric<S>,
        a: &[AuthenticatedStarkPointResult],
        b: &[AuthenticatedStarkPointResult],
    ) -> (r: Vec<AuthenticatedStarkPointResult>)
        requires
            old(fabric).wf(),
            a@.len() == b@.len(),
            old(fabric)@.has_room(3 * (a@.len() as int)),
        ensures
            final(fabric).wf(),
            final(fabric)@ == (if a@.len() == 0 {
                old(fabric)@
            } else {
                old(fabric)@.with_batch_gate(
                    flat_ids(Self::views(a@)) + flat_ids(Self::views(b@)),
                    3 * (a@.len() as int),
                    BatchGateFunction::BatchSub,
                )
            }),
            r@.len() == a@.len(),
            Self::views(r@) == triples_in_range(old(fabric)@.next_result_id, a@.len() as int),
            a@.len() > 0 ==> final(fabric)@.advanced(old(fabric)@, 3 * (a@.len() as int), 1, 0),
    {
        if a.len() == 0 {
            let r: Vec<AuthenticatedStarkPointResult> = Vec::new();
            assert(Self::views(r@) =~= triples_in_range(old(fabric)@.next_result_id, 0));
            return r;
        }
        proof {
            fabric.lemma_wf();
        }
        let n = a.len();
        let ghost first = old(fabric)@.next_result_id;
        let res: Vec<StarkPointResult> = fabric.batch_gate(
            Self::collect_flat_ids(a),
            Self::collect_flat_ids(b),
            AUTHENTICATED_STARK_POINT_RESULT_LEN * n,
            BatchGateFunction::BatchSub,
        );
        Self::from_gate_results(res, Ghost(first))
    }

    /// Subtract a batch of `StarkPointResult`s from a batch of `AuthenticatedStarkPointResult`s
    pub fn batch_sub_public<S: SharedValueSource>(
        fabric: &mut MpcFabric<S>,
        a: &[AuthenticatedStarkPointResult],
        b: &[StarkPointResult],
    ) -> (r: Vec<AuthenticatedStarkPointResult>)
        requires
            old(fabric).wf(),
            a@.len() == b@.len(),
            old(fabric)@.has_room(3 * (a@.len() as int)),
        ensures
            final(fabric).wf(),
            final(fabric)@ == (if a@.len() == 0 {
                old(fabric)@
            } else {
                old(fabric)@.with_batch_gate(
                    flat_ids(Self::views(a@)) + ids_of(b@),
                    3 * (a@.len() as int),
                    BatchGateFunction::BatchSubPublic { party_id: old(fabric)@.party_id },
                )
            }),
            r@.len() == a@.len(),
            Self::views(r@) == triples_in_range(old(fabric)@.next_result_id, a@.len() as int),
            a@.len() > 0 ==> final(fabric)@.advanced(old(fabric)@, 3 * (a@.len() as int), 1, 0),
    {
        if a.len() == 0 {
            let r: Vec<AuthenticatedStarkPointResult> = Vec::new();
            assert(Self::views(r@) =~= triples_in_range(old(fabric)@.next_result_id, 0));
            return r;
        }
        proof {
            fabric.lemma_wf();
        }
        let n = a.len();
        let party_id = fabric.party_id();
        let ghost first = old(fabric)@.next_result_id;
        let res: Vec<StarkPointResult> = fabric.batch_gate(
            Self::collect_flat_ids(a),
            crate::fabric::result::collect_ids(b),
            AUTHENTICATED_STARK_POINT_RESULT_LEN * n,
            BatchGateFunction::BatchSubPublic { party_id },
        );
        Self::from_gate_results(res, Ghost(first))
    }

    /// Negate a batch of `AuthenticatedStarkPointResult`s
    pub fn batch_neg<S: SharedValueSource>(
        fabric: &mut MpcFabric<S>,
        a: &[AuthenticatedStarkPointResult],
    ) -> (r: Vec<AuthenticatedStarkPointResult>)
        requires
            old(fabric).wf(),
            old(fabric)@.has_room(3 * (a@.len() as int)),
        ensures
            final(fabric).wf(),
            final(fabric)@ == (if a@.len() == 0 {
                old(fabric)@
            } else {
                old(fabric)@.with_batch_gate(
                    flat_ids(Self::views(a@)),
                    3 * (a@.len() as int),
                    BatchGateFunction::BatchNeg,
                )
            }),
            r@.len() == a@.len(),
            Self::views(r@) == triples_in_range(old(fabric)@.next_result_id, a@.len() as int),
            a@.len() > 0 ==> final(fabric)@.advanced(old(fabric)@, 3 * (a@.len() as int), 1, 0),
    {
        if a.len() == 0 {
            let r: Vec<AuthenticatedStarkPointResult> = Vec::new();
            assert(Self::views(r@) =~= triples_in_range(old(fabric)@.next_result_id, 0));
            return r;
        }
        proof {
            fabric.lemma_wf();
        }
        let n = a.len();
        let ghost first = old(fabric)@.next_result_id;
        let res: Vec<StarkPointResult> = fabric.new_batch_gate_op(
            Self::collect_flat_ids(a),
            AUTHENTICATED_STARK_POINT_RESULT_LEN * n,
            BatchGateFunction::BatchNeg,
        );
        Self::from_gate_results(res, Ghost(first))
    }

    /// Multiply a batch of `AuthenticatedStarkPointResult`s by a batch of `ScalarResult`s
    pub fn batch_mul_public<S: SharedValueSource>(
        fabric: &mut MpcFabric<S>,
        a: &[ScalarResult],
        b: &[AuthenticatedStarkPointResult],
    ) -> (r: Vec<AuthenticatedStarkPointResult>)
        requires
            old(fabric).wf(),
            a@.len() == b@.len(),
            old(fabric)@.has_room(3 * (a@.len() as int)),
        ensures
            final(fabric).wf(),
            final(fabric)@ == (if a@.len() == 0 {
                old(fabric)@
            } else {
                old(fabric)@.with_batch_gate(
                    ids_of(a@) + flat_ids(Self::views(b@)),
                    3 * (a@.len() as int),
                    BatchGateFunction::BatchMulPublic,
                )
            }),
            r@.len() == a@.len(),
            Self::views(r@) == triples_in_range(old(fabric)@.next_result_id, a@.len() as int),
            a@.len() > 0 ==> final(fabric)@.advanced(old(fabric)@, 3 * (a@.len() as int), 1, 0),
    {
        if a.len() == 0 {
            let r: Vec<AuthenticatedStarkPointResult> = Vec::new();
            assert(Self::views(r@) =~= triples_in_range(old(fabric)@.next_result_id, 0));
            return r;
        }
        proof {
            fabric.lemma_wf();
        }
        let n = a.len();
        let ghost first = old(fabric)@.next_result_id;
        let results: Vec<StarkPointResult> = fabric.batch_gate(
            crate::fabric::result::collect_ids(a),
            Self::collect_flat_ids(b),
            AUTHENTICATED_STARK_POINT_RESULT_LEN * n,
            BatchGateFunction::BatchMulPublic,
        );
        Self::from_gate_results(results, Ghost(first))
    }

    /// Multiply a batch of public points by a batch of authenticated scalars,
    /// element by element
    pub fn batch_mul_authenticated<S: SharedValueSource>(
        fabric: &mut MpcFabric<S>,
        a: &[AuthenticatedScalarResult],
        b: &[StarkPointResult],
    ) -> (r: Vec<AuthenticatedStarkPointResult>)
        requires
            old(fabric).wf(),
            a@.len() == b@.len(),
            old(fabric)@.has_room(3 * (a@.len() as int)),
        ensures
            final(fabric).wf(),
            final(fabric)@ == (if a@.len() == 0 {
                old(fabric)@
            } else {
                old(fabric)@.with_batch_gate(
                    flat_ids(AuthenticatedScalarResult::views(a@)) + ids_of(b@),
                    3 * (a@.len() as int),
                    BatchGateFunction::BatchMulAuthenticated,
                )
            }),
            r@.len() == a@.len(),
            Self::views(r@) == triples_in_range(old(fabric)@.next_result_id, a@.len() as int),
            a@.len() > 0 ==> final(fabric)@.advanced(old(fabric)@, 3 * (a@.len() as int), 1, 0),
    {
        if a.len() == 0 {
            let r: Vec<AuthenticatedStarkPointResult> = Vec::new();
            assert(Self::views(r@) =~= triples_in_range(old(fabric)@.next_result_id, 0));
            return r;
        }
        proof {
            fabric.lemma_wf();
        }
        let n = a.len();
        let ghost first = old(fabric)@.next_result_id;
        let results: Vec<StarkPointResult> = fabric.batch_gate(
            AuthenticatedScalarResult::collect_flat_ids(a),
            crate::fabric::result::collect_ids(b),
            AUTHENTICATED_STARK_POINT_RESULT_LEN * n,
            BatchGateFunction::BatchMulAuthenticated,
        );
        Self::from_gate_results(results, Ghost(first))
    }

    /// Multiply a batch of scalars by the generator
    pub fn batch_mul_generator<S: SharedValueSource>(
        fabric: &mut MpcFabric<S>,
        a: &[AuthenticatedScalarResult],
    ) -> (r: Vec<AuthenticatedStarkPointResult>)
        requires
            old(fabric).wf(),
            old(fabric)@.has_room(3 * (a@.len() as int)),
        ensures
            final(fabric).wf(),
            final(fabric)@ == (if a@.len() == 0 {
                old(fabric)@
            } else {
                old(fabric)@.with_batch_gate(
                    flat_ids(AuthenticatedScalarResult::views(a@)),
                    3 * (a@.len() as int),
                    BatchGateFunction::BatchMulGenerator,
                )
            }),
            r@.len() == a@.len(),
            Self::views(r@) == triples_in_range(old(fabric)@.next_result_id, a@.len() as int),
            a@.len() > 0 ==> final(fabric)@.advanced(old(fabric)@, 3 * (a@.len() as int), 1, 0),
    {
        if a.len() == 0 {
            let r: Vec<AuthenticatedStarkPointResult> = Vec::new();
            assert(Self::views(r@) =~= triples_in_range(old(fabric)@.next_result_id, 0));
            return r;
        }
        proof {
            fabric.lemma_wf();
        }
        let n = a.len();
        let ghost first = old(fabric)@.next_result_id;
        // Multiply the shares in a batch gate
        let results: Vec<StarkPointResult> = fabric.new_batch_gate_op(
            AuthenticatedScalarResult::collect_flat_ids(a),
            AUTHENTICATED_STARK_POINT_RESULT_LEN * n,
            BatchGateFunction::BatchMulGenerator,
        );
        Self::from_gate_results(results, Ghost(first))
    }

    /// Multiply a batch of `AuthenticatedStarkPointResult`s by a batch of `AuthenticatedScalarResult`s
    ///
    /// The Beaver triples that the fabric lacks for it are drawn from the
    /// source first, in one request.
    pub fn batch_mul<S: SharedValueSource>(
        fabric: &mut MpcFabric<S>,
        a: &[AuthenticatedScalarResult],
        b: &[AuthenticatedStarkPointResult],
    ) -> (r: Vec<AuthenticatedStarkPointResult>)
        requires
            old(fabric).wf(),
            a@.len() == b@.len(),
            a@.len() > 0 ==> old(fabric)@.has_room(72 * (a@.len() as int) + 10),
        ensures
            final(fabric).wf(),
            old(fabric)@.triples.len() >= 4 * a@.len() ==> (final(fabric)@ == old(fabric)@.auth_point_beaver_batch_mul(
                    AuthenticatedScalarResult::views(a@),
                    Self::views(b@),
                )),
            r@.len() == a@.len(),
            old(fabric)@.triples.len() >= 4 * a@.len() ==> (a@.len() > 0 ==> Self::views(r@) == triples_in_range(
                    old(fabric)@.next_result_id + 69 * a@.len() + 10,
                    a@.len() as int,
                ) && final(fabric)@.advanced(
                    old(fabric)@,
                    72 * (a@.len() as int) + 10,
                    44,
                    4 * (a@.len() as int),
                )),
            exists|drawn: Seq<(Scalar, Scalar, Scalar)>|
                {
                    &&& #[trigger] old(fabric)@.draws(drawn, (4 * a@.len()) as int)
                    &&& (final(fabric)@ == old(fabric)@.with_drawn(drawn).auth_point_beaver_batch_mul(
                        AuthenticatedScalarResult::views(a@),
                        Self::views(b@),
                    ))
                    &&& (a@.len() > 0 ==> Self::views(r@) == triples_in_range(
                        old(fabric)@.next_result_id + 69 * a@.len() + 10,
                        a@.len() as int,
                    ) && final(fabric)@.advanced(
                        old(fabric)@.with_drawn(drawn),
                        72 * (a@.len() as int) + 10,
                        44,
                        4 * (a@.len() as int),
                    ))
                },
    {
        proof {
            fabric.lemma_wf();
        }
        fabric.draw_missing_triples(4 * a.len());
        let ghost drawn = fabric@.triples.skip(old(fabric)@.triples.len() as int);
        let r = Self::batch_mul_with_triples(fabric, a, b);
        proof {
            assert(old(fabric)@.draws(drawn, (4 * a@.len()) as int));
        }
        r
    }

    /// The same, with the Beaver triples that it uses drawn beforehand
    fn batch_mul_with_triples<S: SharedValueSource>(
        fabric: &mut MpcFabric<S>,
        a: &[AuthenticatedScalarResult],
        b: &[AuthenticatedStarkPointResult],
    ) -> (r: Vec<AuthenticatedStarkPointResult>)
        requires
            old(fabric).wf(),
            a@.len() == b@.len(),
            a@.len() > 0 ==> old(fabric)@.has_room(72 * (a@.len() as int) + 10),
            old(fabric)@.triples.len() >= 4 * a@.len(),
        ensures
            final(fabric).wf(),
            final(fabric)@ == old(fabric)@.auth_point_beaver_batch_mul(
                AuthenticatedScalarResult::views(a@),
                Self::views(b@),
            ),
            r@.len() == a@.len(),
            a@.len() > 0 ==> Self::views(r@) == triples_in_range(
                old(fabric)@.next_result_id + 69 * a@.len() + 10,
                a@.len() as int,
            ) && final(fabric)@.advanced(
                old(fabric)@,
                72 * (a@.len() as int) + 10,
                44,
                4 * (a@.len() as int),
            ),
    {
        proof {
            reveal(FabricState::auth_point_beaver_batch_mul);
        }
        if a.len() == 0 {
            return Vec::new();
        }
        let n = a.len();
        // Sample a set of beaver triples for the multiplications
        let (beaver_a, beaver_b, beaver_c) = fabric.next_authenticated_triple_batch(n);
        let beaver_b_gen = Self::batch_mul_generator(fabric, beaver_b.as_slice());
        let masked_rhs = AuthenticatedScalarResult::batch_sub(fabric, a, beaver_a.as_slice());
        let masked_lhs = Self::batch_sub(fabric, b, beaver_b_gen.as_slice());
        proof {
            assert(shares_of(Self::views(masked_lhs@)) =~= shares_of(
                triples_in_range(old(fabric)@.next_result_id + 48 * n + 6, n as int),
            ));
            assert(Seq::new(masked_rhs@.len(), |i: int| masked_rhs@[i]@.share) =~= shares_of(
                triples_in_range(old(fabric)@.next_result_id + 45 * n + 6, n as int),
            ));
        }
        let e_open = Self::open_batch(fabric, masked_lhs.as_slice());
        let d_open = AuthenticatedScalarResult::open_batch(fabric, masked_rhs.as_slice());
        // Identity [x * yG] = deG + d[bG] + [a]eG + [c]G
        let de = StarkPointResult::batch_mul(fabric, d_open.as_slice(), e_open.as_slice());
        let db = Self::batch_mul_public(fabric, d_open.as_slice(), beaver_b_gen.as_slice());
        let ae = Self::batch_mul_authenticated(fabric, beaver_a.as_slice(), e_open.as_slice());
        let cg = Self::batch_mul_generator(fabric, beaver_c.as_slice());
        let de_db = Self::batch_add_public(fabric, db.as_slice(), de.as_slice());
        let ae_c = Self::batch_add(fabric, ae.as_slice(), cg.as_slice());
        Self::batch_add(fabric, de_db.as_slice(), ae_c.as_slice())
    }

    // === Multiscalar Multiplication === //

    /// Multiscalar multiplication
    ///
    /// The Beaver triples that the fabric lacks for it are drawn from the
    /// source first, in one request.
    pub fn msm<S: SharedValueSource>(
        fabric: &mut MpcFabric<S>,
        scalars: &[AuthenticatedScalarResult],
        points: &[AuthenticatedStarkPointResult],
    ) -> (r: AuthenticatedStarkPointResult)
        requires
            old(fabric).wf(),
            scalars@.len() == points@.len(),
            scalars@.len() >= 1,
            old(fabric)@.has_room(msm_room(scalars@.len())),
        ensures
            final(fabric).wf(),
            old(fabric)@.triples.len() >= 4 * scalars@.len() ==> (final(fabric)@ == old(fabric)@.auth_msm(
                    AuthenticatedScalarResult::views(scalars@),
                    Self::views(points@),
                )),
            r@ == triples_in_range(old(fabric)@.next_result_id + 72 * scalars@.len() + 10, 1)[0],
            old(fabric)@.triples.len() >= 4 * scalars@.len() ==> (final(fabric)@.advanced(
                    old(fabric)@,
                    72 * (scalars@.len() as int) + 13,
                    45,
                    4 * (scalars@.len() as int),
                )),
            exists|drawn: Seq<(Scalar, Scalar, Scalar)>|
                {
                    &&& #[trigger] old(fabric)@.draws(drawn, (4 * scalars@.len()) as int)
                    &&& (final(fabric)@ == old(fabric)@.with_drawn(drawn).auth_msm(
                        AuthenticatedScalarResult::views(scalars@),
                        Self::views(points@),
                    ))
                    &&& (final(fabric)@.advanced(
                        old(fabric)@.with_drawn(drawn),
                        72 * (scalars@.len() as int) + 13,
                        45,
                        4 * (scalars@.len() as int),
                    ))
                },
    {
        proof {
            fabric.lemma_wf();
        }
        fabric.draw_missing_triples(4 * scalars.len());
        let ghost drawn = fabric@.triples.skip(old(fabric)@.triples.len() as int);
        let r = Self::msm_with_triples(fabric, scalars, points);
        proof {
            assert(old(fabric)@.draws(drawn, (4 * scalars@.len()) as int));
        }
        r
    }

    /// The same, with the Beaver triples that it uses drawn beforehand
    fn msm_with_triples<S: SharedValueSource>(
        fabric: &mut MpcFabric<S>,
        scalars: &[AuthenticatedScalarResult],
        points: &[AuthenticatedStarkPointResult],
    ) -> (r: AuthenticatedStarkPointResult)
        requires
            old(fabric).wf(),
            scalars@.len() == points@.len(),
            scalars@.len() >= 1,
            old(fabric)@.has_room(msm_room(scalars@.len())),
            old(fabric)@.triples.len() >= 4 * scalars@.len(),
        ensures
            final(fabric).wf(),
            final(fabric)@ == old(fabric)@.auth_msm(
                AuthenticatedScalarResult::views(scalars@),
                Self::views(points@),
            ),
            r@ == triples_in_range(old(fabric)@.next_result_id + 72 * scalars@.len() + 10, 1)[0],
            final(fabric)@.advanced(
                old(fabric)@,
                72 * (scalars@.len() as int) + 13,
                45,
                4 * (scalars@.len() as int),
            ),
    {
        proof {
            reveal(FabricState::auth_msm);
        }
        let mul_out = Self::batch_mul(fabric, scalars, points);
        // Create a gate to sum the points
        let results: Vec<StarkPointResult> = fabric.new_batch_gate_op(
            Self::collect_flat_ids(mul_out.as_slice()),
            AUTHENTICATED_STARK_POINT_RESULT_LEN,
            BatchGateFunction::SumTriples,
        );
        proof {
            assert(ids_of(results@)[0] == results@[0].id);
            assert(ids_of(results@)[1] == results@[1].id);
            assert(ids_of(results@)[2] == results@[2].id);
        }
        AuthenticatedStarkPointResult {
            share: MpcStarkPointResult::new_shared(results[0].clone()),
            mac: MpcStarkPointResult::new_shared(results[1].clone()),
            public_modifier: results[2].clone(),
        }
    }

    /// Multiscalar multiplication on owned lists
    ///
    /// The Beaver triples that the fabric lacks for it are drawn from the
    /// source first, in one request.
    pub fn msm_iter<S: SharedValueSource>(
        fabric: &mut MpcFabric<S>,
        scalars: Vec<AuthenticatedScalarResult>,
        points: Vec<AuthenticatedStarkPointResult>,
    ) -> (r: AuthenticatedStarkPointResult)
        requires
            old(fabric).wf(),
            scalars@.len() == points@.len(),
            scalars@.len() >= 1,
            old(fabric)@.has_room(msm_room(scalars@.len())),
        ensures
            final(fabric).wf(),
            old(fabric)@.triples.len() >= 4 * scalars@.len() ==> (final(fabric)@ == old(fabric)@.auth_msm(
                    AuthenticatedScalarResult::views(scalars@),
                    Self::views(points@),
                )),
            r@ == triples_in_range(old(fabric)@.next_result_id + 72 * scalars@.len() + 10, 1)[0],
            exists|drawn: Seq<(Scalar, Scalar, Scalar)>|
                {
                    &&& #[trigger] old(fabric)@.draws(drawn, (4 * scalars@.len()) as int)
                    &&& (final(fabric)@ == old(fabric)@.with_drawn(drawn).auth_msm(
                        AuthenticatedScalarResult::views(scalars@),
                        Self::views(points@),
                    ))
                },
    {
        proof {
            fabric.lemma_wf();
        }
        fabric.draw_missing_triples(4 * scalars.len());
        let ghost drawn = fabric@.triples.skip(old(fabric)@.triples.len() as int);
        let r = Self::msm_iter_with_triples(fabric, scalars, points);
        proof {
            assert(old(fabric)@.draws(drawn, (4 * scalars@.len()) as int));
        }
        r
    }

    /// The same, with the Beaver triples that it uses drawn beforehand
    fn msm_iter_with_triples<S: SharedValueSource>(
        fabric: &mut MpcFabric<S>,
        scalars: Vec<AuthenticatedScalarResult>,
        points: Vec<AuthenticatedStarkPointResult>,
    ) -> (r: AuthenticatedStarkPointResult)
        requires
            old(fabric).wf(),
            scalars@.len() == points@.len(),
            scalars@.len() >= 1,
            old(fabric)@.has_room(msm_room(scalars@.len())),
            old(fabric)@.triples.len() >= 4 * scalars@.len(),
        ensures
            final(fabric).wf(),
            final(fabric)@ == old(fabric)@.auth_msm(
                AuthenticatedScalarResult::views(scalars@),
                Self::views(points@),
            ),
            r@ == triples_in_range(old(fabric)@.next_result_id + 72 * scalars@.len() + 10, 1)[0],
    {
        Self::msm(fabric, scalars.as_slice(), points.as_slice())
    }
}

// ----------------
// | Test Helpers |
// ----------------

/// Corrupt the MAC of a given authenticated point
pub fn modify_mac<S: SharedValueSource>(
    fabric: &mut MpcFabric<S>,
    point: &mut AuthenticatedStarkPointResult,
    new_mac: StarkPoint,
)
    requires
        old(fabric).wf(),
        old(fabric)@.has_room(1),
    ensures
        final(fabric).wf(),
        final(fabric)@ == old(fabric)@.allocate(Value::Point(new_mac)),
        final(point)@ == (AuthenticatedIds {
            mac: old(fabric)@.next_result_id as usize,
            ..old(point)@
        }),
{
    point.mac = MpcStarkPointResult::new_shared(fabric.allocate_point(new_mac));
}

/// Corrupt the underlying secret share of a given authenticated point
pub fn modify_share<S: SharedValueSource>(
    fabric: &mut MpcFabric<S>,
    point: &mut AuthenticatedStarkPointResult,
    new_share: StarkPoint,
)
    requires
        old(fabric).wf(),
        old(fabric)@.has_room(1),
    ensures
        final(fabric).wf(),
        final(fabric)@ == old(fabric)@.allocate(Value::Point(new_share)),
        final(point)@ == (AuthenticatedIds {
            share: old(fabric)@.next_result_id as usize,
            ..old(point)@
        }),
{
    point.share = MpcStarkPointResult::new_shared(fabric.allocate_point(new_share));
}

/// Corrupt the public modifier of a given authenticated point
pub fn modify_public_modifier<S: SharedValueSource>(
    fabric: &mut MpcFabric<S>,
    point: &mut AuthenticatedStarkPointResult,
    new_modifier: StarkPoint,
)
    requires
        old(fabric).wf(),
        old(fabric)@.has_room(1),
    ensures
        final(fabric).wf(),
        final(fabric)@ == old(fabric)@.allocate(Value::Point(new_modifier)),
        final(point)@ == (AuthenticatedIds {
            public_modifier: old(fabric)@.next_result_id as usize,
            ..old(point)@
        }),
{
    point.public_modifier = fabric.allocate_point(new_modifier);
}

/// The value that results from opening an `AuthenticatedStarkPointResult` and checking its MAC. This encapsulates
/// both the underlying value and the result of the MAC check
#[derive(Debug)]
pub struct AuthenticatedStarkPointOpenResult {
    /// The underlying value
    pub value: StarkPointResult,
    /// The result of the MAC check
    pub mac_check: ScalarResult,
}

impl Clone for AuthenticatedStarkPointOpenResult {
    fn clone(&self) -> (r: Self)
        ensures
            r.value.id == self.value.id,
            r.mac_check.id == self.mac_check.id,
    {
        AuthenticatedStarkPointOpenResult {
            value: self.value.clone(),
            mac_check: self.mac_check.clone(),
        }
    }
}

impl AuthenticatedStarkPointOpenResult {
    /// What an opening comes to once the value and the verdict are there: the
    /// value if the verdict is one, an authentication error otherwise
    pub open spec fn decided(value: StarkPoint, check: Scalar) -> Result<StarkPoint, MpcError> {
        if check == Scalar::of_nat(1) {
            Ok(value)
        } else {
            Err(MpcError::AuthenticationError)
        }
    }

    /// Whether the results of the opening are of their kinds, as far as they
    /// are resident: the value a point, the verdict a scalar
    pub open spec fn well_kinded(self, s: FabricState) -> bool {
        &&& s.results.dom().contains(self.value.id as int) ==> s.results[self.value.id as int]
            is Point
        &&& s.results.dom().contains(self.mac_check.id as int)
            ==> s.results[self.mac_check.id as int] is Scalar
    }

    /// What the opening resolves to in a state of the fabric in which its
    /// results are of their kinds: nothing while the value or the verdict is
    /// not resident; the value if the verdict is one; an authentication error
    /// otherwise
    pub open spec fn resolved(self, s: FabricState) -> Option<Result<StarkPoint, MpcError>> {
        if s.results.dom().contains(self.value.id as int) && s.results.dom().contains(
            self.mac_check.id as int,
        ) {
            match (s.results[self.value.id as int], s.results[self.mac_check.id as int]) {
                (Value::Point(value), Value::Scalar(check)) => Some(Self::decided(value, check)),
                _ => None,
            }
        } else {
            None
        }
    }

    /// Decide on an opening whose value and verdict are there: the value if
    /// the MAC check passed, an authentication error if it did not
    pub fn decide(value: StarkPoint, check: &Scalar) -> (r: Result<StarkPoint, MpcError>)
        ensures
            r == Self::decided(value, *check),
    {
        if *check == Scalar::one() {
            Ok(value)
        } else {
            Err(MpcError::AuthenticationError)
        }
    }

    /// Whether the results of the opening are of their kinds, as far as they
    /// are resident
    pub fn kinds_match<S: SharedValueSource>(&self, fabric: &MpcFabric<S>) -> (r: bool)
        ensures
            r == self.well_kinded(fabric@),
    {
        let value_fits = match fabric.result(self.value.id) {
            Some(ResultValue::Point(_)) => true,
            Some(_) => false,
            None => true,
        };
        let check_fits = match fabric.result(self.mac_check.id) {
            Some(ResultValue::Scalar(_)) => true,
            Some(_) => false,
            None => true,
        };
        value_fits && check_fits
    }

    /// Look the opening up: nothing while the value or the verdict is not
    /// resident; the value if the MAC check passed; an authentication error if
    /// it did not. A result of another kind than the opening declares is an
    /// error of the program, and left out.
    pub fn poll<S: SharedValueSource>(&self, fabric: &MpcFabric<S>) -> (r: Option<
        Result<StarkPoint, MpcError>,
    >)
        requires
            self.well_kinded(fabric@),
        ensures
            r == self.resolved(fabric@),
    {
        // Await both of the underlying values
        let value = fabric.result(self.value.id);
        let check = fabric.result(self.mac_check.id);
        match (value, check) {
            (Some(ResultValue::Point(value)), Some(ResultValue::Scalar(check))) => Some(
                Self::decide(value, &check),
            ),
            _ => None,
        }
    }
}

} // verus!
