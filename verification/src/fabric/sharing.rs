//! The values that a fabric hands out as authenticated shares: the
//! constants, the values that a party shares with its peer, and the values
//! that the parties shared before the computation

use vstd::prelude::*;

use crate::algebra::authenticated_scalar::zip_triples;
use crate::algebra::authenticated_scalar::AuthenticatedIds;
use crate::algebra::authenticated_scalar::AuthenticatedScalarResult;
use crate::algebra::authenticated_stark_point::AuthenticatedStarkPointResult;
use crate::algebra::mpc_scalar::MpcScalarResult;
use crate::algebra::mpc_stark_point::MpcStarkPointResult;
use crate::algebra::scalar::Scalar;
use crate::algebra::scalar::ScalarResult;
use crate::algebra::stark_curve::StarkPoint;
use crate::beaver::SharedValueSource;
use crate::fabric::gate::BatchGateFunction;
use crate::fabric::result::ids_of;
use crate::fabric::result::range_ids;
use crate::fabric::result::scalar_values;
use crate::fabric::result::ResultHandle;
use crate::fabric::result::ResultValue;
use crate::fabric::result::Value;
use crate::fabric::FabricState;
use crate::fabric::MpcFabric;
use crate::fabric::RESULT_IDENTITY;
use crate::fabric::RESULT_MAC_KEY;
use crate::fabric::RESULT_ONE;
use crate::fabric::RESULT_ZERO;
use crate::network::PartyId;
use crate::PARTY0;

verus! {

/// The number of results that sharing a scalar declares: the share, and the
/// 17 results of its multiplication by the MAC key
pub const SHARED_SCALAR_RESULTS: usize = 18;

/// The number of results that sharing a point declares
pub const SHARED_POINT_RESULTS: usize = 22;

impl FabricState {
    /// The state after a party has shared a scalar with its peer: the sender
    /// keeps the value less the blinder and sends the blinder, the other party
    /// allocates a slot for it; then the share is authenticated
    #[verifier::opaque]
    pub open spec fn shared_scalar(self, value: Scalar, sender: PartyId, blinder: Scalar)
        -> FabricState {
        let distributed = if self.party_id == sender {
            self.allocate_shared(Value::Scalar(value.sub_spec(blinder)), Value::Scalar(blinder))
        } else {
            self.receive()
        };
        distributed.beaver_mul(RESULT_MAC_KEY, self.next_result_id as usize)
    }

    /// The state after a party has shared a point with its peer: the sender
    /// keeps the point less the blinder times the generator and sends that
    /// multiple of the generator, the other party allocates a slot for it; then
    /// the share is authenticated
    #[verifier::opaque]
    pub open spec fn shared_point(self, value: StarkPoint, sender: PartyId, blinder: Scalar)
        -> FabricState {
        let mask = StarkPoint::product(blinder@, StarkPoint::generator_spec());
        let distributed = if self.party_id == sender {
            self.allocate_shared(
                Value::Point(StarkPoint::difference(value, mask)),
                Value::Point(mask),
            )
        } else {
            self.receive()
        };
        distributed.auth_point_shared(self.next_result_id as usize)
    }

    /// The state after a scalar that the parties shared before has been
    /// allocated and authenticated
    #[verifier::opaque]
    pub open spec fn preshared_scalar(self, value: Scalar) -> FabricState {
        self.allocate(Value::Scalar(value)).beaver_mul(
            RESULT_MAC_KEY,
            self.next_result_id as usize,
        )
    }

    /// The state after a batch of scalars that the parties shared before has
    /// been allocated and authenticated
    #[verifier::opaque]
    pub open spec fn preshared_scalars(self, values: Seq<Scalar>) -> FabricState {
        self.allocate_all(scalar_values(values)).beaver_batch_mul(
            range_ids(self.next_result_id, values.len() as int),
            Seq::new(values.len(), |i: int| RESULT_MAC_KEY),
        )
    }

    /// The state after each of a list of scalars that the parties shared
    /// before has been allocated and authenticated, one after the other
    pub open spec fn preshared_each(self, values: Seq<Scalar>) -> FabricState
        decreases values.len(),
    {
        if values.len() == 0 {
            self
        } else {
            self.preshared_each(values.drop_last()).preshared_scalar(values.last())
        }
    }
}

/// The differences of two lists of scalars, element by element
pub open spec fn scalar_differences(a: Seq<Scalar>, b: Seq<Scalar>) -> Seq<Scalar> {
    Seq::new(a.len(), |i: int| a[i].sub_spec(b[i]))
}

impl<S: SharedValueSource> MpcFabric<S> {
    /// Get the hardcoded zero wire as an `AuthenticatedScalarResult`
    ///
    /// Both parties hold the share 0 directly in this case
    pub fn zero_authenticated(&self) -> (r: AuthenticatedScalarResult)
        ensures
            r@ == (AuthenticatedIds {
                share: RESULT_ZERO,
                mac: RESULT_ZERO,
                public_modifier: RESULT_ZERO,
            }),
    {
        AuthenticatedScalarResult {
            share: MpcScalarResult::new_shared(self.zero()),
            mac: MpcScalarResult::new_shared(self.zero()),
            public_modifier: self.zero(),
        }
    }

    /// Get a batch of references to the zero wire as an `AuthenticatedScalarResult`
    pub fn zeros_authenticated(&self, n: usize) -> (r: Vec<AuthenticatedScalarResult>)
        ensures
            r@.len() == n,
            forall|i: int|
                0 <= i < n ==> (#[trigger] r@[i])@ == (AuthenticatedIds {
                    share: RESULT_ZERO,
                    mac: RESULT_ZERO,
                    public_modifier: RESULT_ZERO,
                }),
    {
        let mut values: Vec<AuthenticatedScalarResult> = Vec::with_capacity(n);
        let mut i: usize = 0;
        while i < n
            invariant
                i <= n,
                values@.len() == i,
                forall|j: int|
                    0 <= j < i ==> (#[trigger] values@[j])@ == (AuthenticatedIds {
                        share: RESULT_ZERO,
                        mac: RESULT_ZERO,
                        public_modifier: RESULT_ZERO,
                    }),
            decreases n - i,
        {
            values.push(self.zero_authenticated());
            i += 1;
        }
        values
    }

    /// Get the hardcoded one wire as an `AuthenticatedScalarResult`
    ///
    /// Party 0 holds the share zero and party 1 holds the share one; the MAC
    /// of the value one is the MAC key, so each party's share of the MAC is
    /// its share of the key
    pub fn one_authenticated(&self) -> (r: AuthenticatedScalarResult)
        ensures
            r@ == (AuthenticatedIds {
                share: if self@.party_id == PARTY0 {
                    RESULT_ZERO
                } else {
                    RESULT_ONE
                },
                mac: RESULT_MAC_KEY,
                public_modifier: RESULT_ZERO,
            }),
    {
        let share = if self.party_id() == PARTY0 {
            self.zero()
        } else {
            self.one()
        };
        AuthenticatedScalarResult {
            share: MpcScalarResult::new_shared(share),
            mac: MpcScalarResult::new_shared(self.mac_key()),
            public_modifier: self.zero(),
        }
    }

    /// Get a batch of references to the one wire as an `AuthenticatedScalarResult`
    pub fn ones_authenticated(&self, n: usize) -> (r: Vec<AuthenticatedScalarResult>)
        ensures
            r@.len() == n,
            forall|i: int|
                0 <= i < n ==> (#[trigger] r@[i])@ == (AuthenticatedIds {
                    share: if self@.party_id == PARTY0 {
                        RESULT_ZERO
                    } else {
                        RESULT_ONE
                    },
                    mac: RESULT_MAC_KEY,
                    public_modifier: RESULT_ZERO,
                }),
    {
        let mut values: Vec<AuthenticatedScalarResult> = Vec::with_capacity(n);
        let mut i: usize = 0;
        while i < n
            invariant
                i <= n,
                values@.len() == i,
                forall|j: int|
                    0 <= j < i ==> (#[trigger] values@[j])@ == (AuthenticatedIds {
                    share: if self@.party_id == PARTY0 {
                        RESULT_ZERO
                    } else {
                        RESULT_ONE
                    },
                    mac: RESULT_MAC_KEY,
                    public_modifier: RESULT_ZERO,
                }),
            decreases n - i,
        {
            values.push(self.one_authenticated());
            i += 1;
        }
        values
    }

    /// Get the hardcoded curve identity wire as an `AuthenticatedStarkPointResult`
    ///
    /// Both parties hold the identity point directly in this case
    pub fn curve_identity_authenticated(&self) -> (r: AuthenticatedStarkPointResult)
        ensures
            r@ == (AuthenticatedIds {
                share: RESULT_IDENTITY,
                mac: RESULT_IDENTITY,
                public_modifier: RESULT_IDENTITY,
            }),
    {
        AuthenticatedStarkPointResult {
            share: MpcStarkPointResult::new_shared(self.curve_identity()),
            mac: MpcStarkPointResult::new_shared(self.curve_identity()),
            public_modifier: self.curve_identity(),
        }
    }

    /// Share a `Scalar` value with the counterparty, with a fresh random
    /// blinder
    ///
    /// The Beaver triples that the fabric lacks for it are drawn from the
    /// source first, in one request.
    pub fn share_scalar(&mut self, val: Scalar, sender: PartyId) -> (r: AuthenticatedScalarResult)
        requires
            old(self).wf(),
            old(self)@.has_room(SHARED_SCALAR_RESULTS as int),
        ensures
            final(self).wf(),
            r@ == (AuthenticatedIds {
                share: old(self)@.next_result_id as usize,
                mac: (old(self)@.next_result_id + 17) as usize,
                public_modifier: RESULT_ZERO,
            }),
            old(self)@.triples.len() >= 1 ==> (exists|blinder: Scalar|
                    final(self)@ == #[trigger] old(self)@.shared_scalar(val, sender, blinder)),
            old(self)@.triples.len() >= 1 ==> (final(self)@.advanced(old(self)@, 18, 12, 1)),
            exists|drawn: Seq<(Scalar, Scalar, Scalar)>|
                {
                    &&& #[trigger] old(self)@.draws(drawn, 1)
                    &&& (exists|blinder: Scalar|
                        final(self)@ == #[trigger] old(self)@.with_drawn(drawn).shared_scalar(val, sender, blinder))
                    &&& (final(self)@.advanced(old(self)@.with_drawn(drawn), 18, 12, 1))
                },
    {
        proof {
            self.lemma_wf();
        }
        self.draw_missing_triples(1);
        let ghost drawn = self@.triples.skip(old(self)@.triples.len() as int);
        let r = self.share_scalar_with_triples(val, sender);
        proof {
            assert(old(self)@.draws(drawn, 1));
        }
        r
    }

    /// The same, with the Beaver triples that it uses drawn beforehand
    fn share_scalar_with_triples(&mut self, val: Scalar, sender: PartyId) -> (r: AuthenticatedScalarResult)
        requires
            old(self).wf(),
            old(self)@.has_room(SHARED_SCALAR_RESULTS as int),
            old(self)@.triples.len() >= 1,
        ensures
            final(self).wf(),
            r@ == (AuthenticatedIds {
                share: old(self)@.next_result_id as usize,
                mac: (old(self)@.next_result_id + 17) as usize,
                public_modifier: RESULT_ZERO,
            }),
            exists|blinder: Scalar|
                final(self)@ == #[trigger] old(self)@.shared_scalar(val, sender, blinder),
            final(self)@.advanced(old(self)@, 18, 12, 1),
    {
        let random = Scalar::random();
        self.share_scalar_with_blinder(val, sender, random)
    }

    /// Share a `Scalar` value with the counterparty: the sender keeps the value
    /// less the blinder, and the counterparty gets the blinder
    ///
    /// The Beaver triples that the fabric lacks for it are drawn from the
    /// source first, in one request.
    pub fn share_scalar_with_blinder(&mut self, val: Scalar, sender: PartyId, blinder: Scalar) -> (r:
        AuthenticatedScalarResult)
        requires
            old(self).wf(),
            old(self)@.has_room(SHARED_SCALAR_RESULTS as int),
        ensures
            final(self).wf(),
            r@ == (AuthenticatedIds {
                share: old(self)@.next_result_id as usize,
                mac: (old(self)@.next_result_id + 17) as usize,
                public_modifier: RESULT_ZERO,
            }),
            old(self)@.triples.len() >= 1 ==> (final(self)@ == old(self)@.shared_scalar(val, sender, blinder)),
            old(self)@.triples.len() >= 1 ==> (final(self)@.advanced(old(self)@, 18, 12, 1)),
            exists|drawn: Seq<(Scalar, Scalar, Scalar)>|
                {
                    &&& #[trigger] old(self)@.draws(drawn, 1)
                    &&& (final(self)@ == old(self)@.with_drawn(drawn).shared_scalar(val, sender, blinder))
                    &&& (final(self)@.advanced(old(self)@.with_drawn(drawn), 18, 12, 1))
                },
    {
        proof {
            self.lemma_wf();
        }
        self.draw_missing_triples(1);
        let ghost drawn = self@.triples.skip(old(self)@.triples.len() as int);
        let r = self.share_scalar_with_blinder_with_triples(val, sender, blinder);
        proof {
            assert(old(self)@.draws(drawn, 1));
        }
        r
    }

    /// The same, with the Beaver triples that it uses drawn beforehand
    fn share_scalar_with_blinder_with_triples(&mut self, val: Scalar, sender: PartyId, blinder: Scalar) -> (r:
        AuthenticatedScalarResult)
        requires
            old(self).wf(),
            old(self)@.has_room(SHARED_SCALAR_RESULTS as int),
            old(self)@.triples.len() >= 1,
        ensures
            final(self).wf(),
            r@ == (AuthenticatedIds {
                share: old(self)@.next_result_id as usize,
                mac: (old(self)@.next_result_id + 17) as usize,
                public_modifier: RESULT_ZERO,
            }),
            final(self)@ == old(self)@.shared_scalar(val, sender, blinder),
            final(self)@.advanced(old(self)@, 18, 12, 1),
    {
        proof {
            reveal(FabricState::shared_scalar);
        }
        let scalar: ScalarResult = if self.party_id() == sender {
            let my_share = val.sub(&blinder);
            let id = self.allocate_shared_value(
                ResultValue::Scalar(my_share),
                ResultValue::Scalar(blinder),
            );
            ResultHandle::new(id)
        } else {
            self.receive_value()
        };
        proof {
            assert(self@.triples =~= old(self)@.triples);
        }
        AuthenticatedScalarResult::new_shared(self, scalar)
    }

    /// Share a batch of `Scalar` values with the counterparty, with fresh
    /// random blinders
    ///
    /// The Beaver triples that the fabric lacks for it are drawn from the
    /// source first, in one request.
    pub fn batch_share_scalar(&mut self, vals: Vec<Scalar>, sender: PartyId) -> (r: Vec<
        AuthenticatedScalarResult,
    >)
        requires
            old(self).wf(),
            vals@.len() >= 1,
            vals@.len() > 0 ==> old(self)@.has_room(14 * (vals@.len() as int) + 3),
        ensures
            final(self).wf(),
            r@.len() == vals@.len(),
            AuthenticatedScalarResult::views(r@) == zip_triples(
                range_ids(old(self)@.next_result_id + 1, vals@.len() as int),
                range_ids(old(self)@.next_result_id + 13 * vals@.len() + 3, vals@.len() as int),
                RESULT_ZERO,
            ),
            old(self)@.triples.len() >= vals@.len() ==> (exists|blinders: Seq<Scalar>|
                    blinders.len() == vals@.len() && final(self)@ == #[trigger] old(
                        self,
                    )@.shared_scalars(vals@, sender, blinders)),
            exists|drawn: Seq<(Scalar, Scalar, Scalar)>|
                {
                    &&& #[trigger] old(self)@.draws(drawn, vals@.len() as int)
                    &&& (exists|blinders: Seq<Scalar>|
                        blinders.len() == vals@.len() && final(self)@ == #[trigger] old(self)@.with_drawn(
                            drawn,
                        ).shared_scalars(vals@, sender, blinders))
                },
    {
        proof {
            self.lemma_wf();
        }
        self.draw_missing_triples(vals.len());
        let ghost drawn = self@.triples.skip(old(self)@.triples.len() as int);
        let r = self.batch_share_scalar_with_triples(vals, sender);
        proof {
            assert(old(self)@.draws(drawn, vals@.len() as int));
        }
        r
    }

    /// The same, with the Beaver triples that it uses drawn beforehand
    fn batch_share_scalar_with_triples(&mut self, vals: Vec<Scalar>, sender: PartyId) -> (r: Vec<
        AuthenticatedScalarResult,
    >)
        requires
            old(self).wf(),
            vals@.len() >= 1,
            vals@.len() > 0 ==> old(self)@.has_room(14 * (vals@.len() as int) + 3),
            old(self)@.triples.len() >= vals@.len(),
        ensures
            final(self).wf(),
            r@.len() == vals@.len(),
            AuthenticatedScalarResult::views(r@) == zip_triples(
                range_ids(old(self)@.next_result_id + 1, vals@.len() as int),
                range_ids(old(self)@.next_result_id + 13 * vals@.len() + 3, vals@.len() as int),
                RESULT_ZERO,
            ),
            exists|blinders: Seq<Scalar>|
                blinders.len() == vals@.len() && final(self)@ == #[trigger] old(
                    self,
                )@.shared_scalars(vals@, sender, blinders),
    {
        let n = vals.len();
        let mut blinders: Vec<Scalar> = Vec::with_capacity(n);
        let mut i: usize = 0;
        while i < n
            invariant
                i <= n,
                blinders@.len() == i,
            decreases n - i,
        {
            blinders.push(Scalar::random());
            i += 1;
        }
        let ghost drawn = blinders@;
        let r = self.batch_share_scalar_with_blinders(vals, sender, blinders);
        proof {
            assert(final(self)@ == old(self)@.shared_scalars(vals@, sender, drawn));
        }
        r
    }

    /// Share a batch of `Scalar` values with the counterparty: the sender
    /// keeps each value less its blinder, and the counterparty gets the blinders
    ///
    /// The Beaver triples that the fabric lacks for it are drawn from the
    /// source first, in one request.
    pub fn batch_share_scalar_with_blinders(
        &mut self,
        vals: Vec<Scalar>,
        sender: PartyId,
        blinders: Vec<Scalar>,
    ) -> (r: Vec<AuthenticatedScalarResult>)
        requires
            old(self).wf(),
            vals@.len() >= 1,
            blinders@.len() == vals@.len(),
            vals@.len() > 0 ==> old(self)@.has_room(14 * (vals@.len() as int) + 3),
        ensures
            final(self).wf(),
            r@.len() == vals@.len(),
            AuthenticatedScalarResult::views(r@) == zip_triples(
                range_ids(old(self)@.next_result_id + 1, vals@.len() as int),
                range_ids(old(self)@.next_result_id + 13 * vals@.len() + 3, vals@.len() as int),
                RESULT_ZERO,
            ),
            old(self)@.triples.len() >= vals@.len() ==> (final(self)@ == old(self)@.shared_scalars(vals@, sender, blinders@)),
            old(self)@.triples.len() >= vals@.len() ==> (final(self)@.advanced(old(self)@, 14 * (vals@.len() as int) + 3, 11, vals@.len() as int)),
            exists|drawn: Seq<(Scalar, Scalar, Scalar)>|
                {
                    &&& #[trigger] old(self)@.draws(drawn, vals@.len() as int)
                    &&& (final(self)@ == old(self)@.with_drawn(drawn).shared_scalars(vals@, sender, blinders@))
                    &&& (final(self)@.advanced(old(self)@.with_drawn(drawn), 14 * (vals@.len() as int) + 3, 11, vals@.len() as int))
                },
    {
        proof {
            self.lemma_wf();
        }
        self.draw_missing_triples(vals.len());
        let ghost drawn = self@.triples.skip(old(self)@.triples.len() as int);
        let r = self.batch_share_scalar_with_blinders_with_triples(vals, sender, blinders);
        proof {
            assert(old(self)@.draws(drawn, vals@.len() as int));
        }
        r
    }

    /// The same, with the Beaver triples that it uses drawn beforehand
    fn batch_share_scalar_with_blinders_with_triples(
        &mut self,
        vals: Vec<Scalar>,
        sender: PartyId,
        blinders: Vec<Scalar>,
    ) -> (r: Vec<AuthenticatedScalarResult>)
        requires
            old(self).wf(),
            vals@.len() >= 1,
            blinders@.len() == vals@.len(),
            vals@.len() > 0 ==> old(self)@.has_room(14 * (vals@.len() as int) + 3),
            old(self)@.triples.len() >= vals@.len(),
        ensures
            final(self).wf(),
            r@.len() == vals@.len(),
            AuthenticatedScalarResult::views(r@) == zip_triples(
                range_ids(old(self)@.next_result_id + 1, vals@.len() as int),
                range_ids(old(self)@.next_result_id + 13 * vals@.len() + 3, vals@.len() as int),
                RESULT_ZERO,
            ),
            final(self)@ == old(self)@.shared_scalars(vals@, sender, blinders@),
            final(self)@.advanced(old(self)@, 14 * (vals@.len() as int) + 3, 11, vals@.len() as int),
    {
        proof {
            reveal(FabricState::shared_scalars);
        }
        let n = vals.len();
        let shares: ResultHandle<Vec<Scalar>> = if self.party_id() == sender {
            let mut my_shares: Vec<Scalar> = Vec::with_capacity(n);
            let mut i: usize = 0;
            while i < n
                invariant
                    i <= n,
                    n == vals@.len(),
                    n == blinders@.len(),
                    my_shares@.len() == i,
                    forall|j: int|
                        0 <= j < i ==> (#[trigger] my_shares@[j]) == vals@[j].sub_spec(
                            blinders@[j],
                        ),
                decreases n - i,
            {
                my_shares.push(vals[i].sub(&blinders[i]));
                i += 1;
            }
            proof {
                assert(my_shares@ =~= scalar_differences(vals@, blinders@));
            }
            let id = self.allocate_shared_value(
                ResultValue::ScalarBatch(my_shares),
                ResultValue::ScalarBatch(blinders),
            );
            ResultHandle::new(id)
        } else {
            self.receive_value()
        };
        proof {
            assert(self@.triples =~= old(self)@.triples);
        }
        AuthenticatedScalarResult::new_shared_from_batch_result(self, shares, n)
    }

    /// Share a `StarkPoint` value with the counterparty, with a fresh random
    /// blinder
    ///
    /// The Beaver triples that the fabric lacks for it are drawn from the
    /// source first, in one request.
    pub fn share_point(&mut self, val: StarkPoint, sender: PartyId) -> (r:
        AuthenticatedStarkPointResult)
        requires
            old(self).wf(),
            old(self)@.has_room(SHARED_POINT_RESULTS as int),
        ensures
            final(self).wf(),
            r@ == (AuthenticatedIds {
                share: old(self)@.next_result_id as usize,
                mac: (old(self)@.next_result_id + 20) as usize,
                public_modifier: (old(self)@.next_result_id + 21) as usize,
            }),
            old(self)@.triples.len() >= 1 ==> (exists|blinder: Scalar|
                    final(self)@ == #[trigger] old(self)@.shared_point(val, sender, blinder)),
            old(self)@.triples.len() >= 1 ==> (final(self)@.advanced(old(self)@, 22, 15, 1)),
            exists|drawn: Seq<(Scalar, Scalar, Scalar)>|
                {
                    &&& #[trigger] old(self)@.draws(drawn, 1)
                    &&& (exists|blinder: Scalar|
                        final(self)@ == #[trigger] old(self)@.with_drawn(drawn).shared_point(val, sender, blinder))
                    &&& (final(self)@.advanced(old(self)@.with_drawn(drawn), 22, 15, 1))
                },
    {
        proof {
            self.lemma_wf();
        }
        self.draw_missing_triples(1);
        let ghost drawn = self@.triples.skip(old(self)@.triples.len() as int);
        let r = self.share_point_with_triples(val, sender);
        proof {
            assert(old(self)@.draws(drawn, 1));
        }
        r
    }

    /// The same, with the Beaver triples that it uses drawn beforehand
    fn share_point_with_triples(&mut self, val: StarkPoint, sender: PartyId) -> (r:
        AuthenticatedStarkPointResult)
        requires
            old(self).wf(),
            old(self)@.has_room(SHARED_POINT_RESULTS as int),
            old(self)@.triples.len() >= 1,
        ensures
            final(self).wf(),
            r@ == (AuthenticatedIds {
                share: old(self)@.next_result_id as usize,
                mac: (old(self)@.next_result_id + 20) as usize,
                public_modifier: (old(self)@.next_result_id + 21) as usize,
            }),
            exists|blinder: Scalar|
                final(self)@ == #[trigger] old(self)@.shared_point(val, sender, blinder),
            final(self)@.advanced(old(self)@, 22, 15, 1),
    {
        let random = Scalar::random();
        self.share_point_with_blinder(val, sender, random)
    }

    /// Share a `StarkPoint` value with the counterparty: the counterparty gets
    /// the blinder times the generator, and the sender keeps the point less that
    ///
    /// The Beaver triples that the fabric lacks for it are drawn from the
    /// source first, in one request.
    pub fn share_point_with_blinder(&mut self, val: StarkPoint, sender: PartyId, blinder: Scalar) -> (r:
        AuthenticatedStarkPointResult)
        requires
            old(self).wf(),
            old(self)@.has_room(SHARED_POINT_RESULTS as int),
        ensures
            final(self).wf(),
            r@ == (AuthenticatedIds {
                share: old(self)@.next_result_id as usize,
                mac: (old(self)@.next_result_id + 20) as usize,
                public_modifier: (old(self)@.next_result_id + 21) as usize,
            }),
            old(self)@.triples.len() >= 1 ==> (final(self)@ == old(self)@.shared_point(val, sender, blinder)),
            old(self)@.triples.len() >= 1 ==> (final(self)@.advanced(old(self)@, 22, 15, 1)),
            exists|drawn: Seq<(Scalar, Scalar, Scalar)>|
                {
                    &&& #[trigger] old(self)@.draws(drawn, 1)
                    &&& (final(self)@ == old(self)@.with_drawn(drawn).shared_point(val, sender, blinder))
                    &&& (final(self)@.advanced(old(self)@.with_drawn(drawn), 22, 15, 1))
                },
    {
        proof {
            self.lemma_wf();
        }
        self.draw_missing_triples(1);
        let ghost drawn = self@.triples.skip(old(self)@.triples.len() as int);
        let r = self.share_point_with_blinder_with_triples(val, sender, blinder);
        proof {
            assert(old(self)@.draws(drawn, 1));
        }
        r
    }

    /// The same, with the Beaver triples that it uses drawn beforehand
    fn share_point_with_blinder_with_triples(&mut self, val: StarkPoint, sender: PartyId, blinder: Scalar) -> (r:
        AuthenticatedStarkPointResult)
        requires
            old(self).wf(),
            old(self)@.has_room(SHARED_POINT_RESULTS as int),
            old(self)@.triples.len() >= 1,
        ensures
            final(self).wf(),
            r@ == (AuthenticatedIds {
                share: old(self)@.next_result_id as usize,
                mac: (old(self)@.next_result_id + 20) as usize,
                public_modifier: (old(self)@.next_result_id + 21) as usize,
            }),
            final(self)@ == old(self)@.shared_point(val, sender, blinder),
            final(self)@.advanced(old(self)@, 22, 15, 1),
    {
        proof {
            reveal(FabricState::shared_point);
        }
        let point: ResultHandle<StarkPoint> = if self.party_id() == sender {
            // It is okay to sample a random point by sampling a random `Scalar` and multiplying
            // by the generator in the case that the discrete log of the output may be leaked with
            // respect to the generator. Leaking the discrete log (i.e. the random `Scalar`) is okay
            // when it is used to generate secret shares
            let random_point = StarkPoint::generator().mul(&blinder);
            let my_share = val.sub(&random_point);
            let id = self.allocate_shared_value(
                ResultValue::Point(my_share),
                ResultValue::Point(random_point),
            );
            ResultHandle::new(id)
        } else {
            self.receive_value()
        };
        proof {
            assert(self@.triples =~= old(self)@.triples);
        }
        AuthenticatedStarkPointResult::new_shared(self, point)
    }

    /// Share a batch of `StarkPoint`s with the counterparty, with fresh random
    /// blinders
    ///
    /// The Beaver triples that the fabric lacks for it are drawn from the
    /// source first, in one request.
    pub fn batch_share_point(&mut self, vals: Vec<StarkPoint>, sender: PartyId) -> (r: Vec<
        AuthenticatedStarkPointResult,
    >)
        requires
            old(self).wf(),
            vals@.len() >= 1,
            vals@.len() > 0 ==> old(self)@.has_room(16 * (vals@.len() as int) + 5),
        ensures
            final(self).wf(),
            r@.len() == vals@.len(),
            AuthenticatedStarkPointResult::views(r@) == zip_triples(
                range_ids(old(self)@.next_result_id + 1, vals@.len() as int),
                range_ids(old(self)@.next_result_id + 15 * vals@.len() + 5, vals@.len() as int),
                RESULT_IDENTITY,
            ),
            old(self)@.triples.len() >= vals@.len() ==> (exists|blinders: Seq<Scalar>|
                    blinders.len() == vals@.len() && final(self)@ == #[trigger] old(
                        self,
                    )@.shared_points(vals@, sender, blinders)),
            exists|drawn: Seq<(Scalar, Scalar, Scalar)>|
                {
                    &&& #[trigger] old(self)@.draws(drawn, vals@.len() as int)
                    &&& (exists|blinders: Seq<Scalar>|
                        blinders.len() == vals@.len() && final(self)@ == #[trigger] old(self)@.with_drawn(
                            drawn,
                        ).shared_points(vals@, sender, blinders))
                },
    {
        proof {
            self.lemma_wf();
        }
        self.draw_missing_triples(vals.len());
        let ghost drawn = self@.triples.skip(old(self)@.triples.len() as int);
        let r = self.batch_share_point_with_triples(vals, sender);
        proof {
            assert(old(self)@.draws(drawn, vals@.len() as int));
        }
        r
    }

    /// The same, with the Beaver triples that it uses drawn beforehand
    fn batch_share_point_with_triples(&mut self, vals: Vec<StarkPoint>, sender: PartyId) -> (r: Vec<
        AuthenticatedStarkPointResult,
    >)
        requires
            old(self).wf(),
            vals@.len() >= 1,
            vals@.len() > 0 ==> old(self)@.has_room(16 * (vals@.len() as int) + 5),
            old(self)@.triples.len() >= vals@.len(),
        ensures
            final(self).wf(),
            r@.len() == vals@.len(),
            AuthenticatedStarkPointResult::views(r@) == zip_triples(
                range_ids(old(self)@.next_result_id + 1, vals@.len() as int),
                range_ids(old(self)@.next_result_id + 15 * vals@.len() + 5, vals@.len() as int),
                RESULT_IDENTITY,
            ),
            exists|blinders: Seq<Scalar>|
                blinders.len() == vals@.len() && final(self)@ == #[trigger] old(
                    self,
                )@.shared_points(vals@, sender, blinders),
    {
        let n = vals.len();
        let mut blinders: Vec<Scalar> = Vec::with_capacity(n);
        let mut i: usize = 0;
        while i < n
            invariant
                i <= n,
                blinders@.len() == i,
            decreases n - i,
        {
            blinders.push(Scalar::random());
            i += 1;
        }
        let ghost drawn = blinders@;
        let r = self.batch_share_point_with_blinders(vals, sender, blinders);
        proof {
            assert(final(self)@ == old(self)@.shared_points(vals@, sender, drawn));
        }
        r
    }

    /// Share a batch of `StarkPoint`s with the counterparty: the counterparty
    /// gets each blinder times the generator, and the sender keeps each point
    /// less that
    ///
    /// The Beaver triples that the fabric lacks for it are drawn from the
    /// source first, in one request.
    pub fn batch_share_point_with_blinders(
        &mut self,
        vals: Vec<StarkPoint>,
        sender: PartyId,
        blinders: Vec<Scalar>,
    ) -> (r: Vec<AuthenticatedStarkPointResult>)
        requires
            old(self).wf(),
            vals@.len() >= 1,
            blinders@.len() == vals@.len(),
            vals@.len() > 0 ==> old(self)@.has_room(16 * (vals@.len() as int) + 5),
        ensures
            final(self).wf(),
            r@.len() == vals@.len(),
            AuthenticatedStarkPointResult::views(r@) == zip_triples(
                range_ids(old(self)@.next_result_id + 1, vals@.len() as int),
                range_ids(old(self)@.next_result_id + 15 * vals@.len() + 5, vals@.len() as int),
                RESULT_IDENTITY,
            ),
            old(self)@.triples.len() >= vals@.len() ==> (final(self)@ == old(self)@.shared_points(vals@, sender, blinders@)),
            old(self)@.triples.len() >= vals@.len() ==> (final(self)@.advanced(old(self)@, 16 * (vals@.len() as int) + 5, 15, vals@.len() as int)),
            exists|drawn: Seq<(Scalar, Scalar, Scalar)>|
                {
                    &&& #[trigger] old(self)@.draws(drawn, vals@.len() as int)
                    &&& (final(self)@ == old(self)@.with_drawn(drawn).shared_points(vals@, sender, blinders@))
                    &&& (final(self)@.advanced(old(self)@.with_drawn(drawn), 16 * (vals@.len() as int) + 5, 15, vals@.len() as int))
                },
    {
        proof {
            self.lemma_wf();
        }
        self.draw_missing_triples(vals.len());
        let ghost drawn = self@.triples.skip(old(self)@.triples.len() as int);
        let r = self.batch_share_point_with_blinders_with_triples(vals, sender, blinders);
        proof {
            assert(old(self)@.draws(drawn, vals@.len() as int));
        }
        r
    }

    /// The same, with the Beaver triples that it uses drawn beforehand
    fn batch_share_point_with_blinders_with_triples(
        &mut self,
        vals: Vec<StarkPoint>,
        sender: PartyId,
        blinders: Vec<Scalar>,
    ) -> (r: Vec<AuthenticatedStarkPointResult>)
        requires
            old(self).wf(),
            vals@.len() >= 1,
            blinders@.len() == vals@.len(),
            vals@.len() > 0 ==> old(self)@.has_room(16 * (vals@.len() as int) + 5),
            old(self)@.triples.len() >= vals@.len(),
        ensures
            final(self).wf(),
            r@.len() == vals@.len(),
            AuthenticatedStarkPointResult::views(r@) == zip_triples(
                range_ids(old(self)@.next_result_id + 1, vals@.len() as int),
                range_ids(old(self)@.next_result_id + 15 * vals@.len() + 5, vals@.len() as int),
                RESULT_IDENTITY,
            ),
            final(self)@ == old(self)@.shared_points(vals@, sender, blinders@),
            final(self)@.advanced(old(self)@, 16 * (vals@.len() as int) + 5, 15, vals@.len() as int),
    {
        proof {
            reveal(FabricState::shared_points);
        }
        let n = vals.len();
        let shares: ResultHandle<Vec<StarkPoint>> = if self.party_id() == sender {
            let generator = StarkPoint::generator();
            let mut peer_shares: Vec<StarkPoint> = Vec::with_capacity(n);
            let mut my_shares: Vec<StarkPoint> = Vec::with_capacity(n);
            let mut i: usize = 0;
            while i < n
                invariant
                    i <= n,
                    n == vals@.len(),
                    n == blinders@.len(),
                    generator == StarkPoint::generator_spec(),
                    peer_shares@.len() == i,
                    my_shares@.len() == i,
                    forall|j: int|
                        0 <= j < i ==> (#[trigger] peer_shares@[j]) == point_masks(blinders@)[j],
                    forall|j: int|
                        0 <= j < i ==> (#[trigger] my_shares@[j]) == point_differences(
                            vals@,
                            point_masks(blinders@),
                        )[j],
                decreases n - i,
            {
                let mask = generator.mul(&blinders[i]);
                my_shares.push(vals[i].sub(&mask));
                peer_shares.push(mask);
                i += 1;
            }
            proof {
                assert(peer_shares@ =~= point_masks(blinders@));
                assert(my_shares@ =~= point_differences(vals@, point_masks(blinders@)));
            }
            let id = self.allocate_shared_value(
                ResultValue::PointBatch(my_shares),
                ResultValue::PointBatch(peer_shares),
            );
            ResultHandle::new(id)
        } else {
            self.receive_value()
        };
        proof {
            assert(self@.triples =~= old(self)@.triples);
        }
        AuthenticatedStarkPointResult::new_shared_from_batch_result(self, shares, n)
    }

    /// Allocate a scalar as a secret share of an already shared value
    ///
    /// The Beaver triples that the fabric lacks for it are drawn from the
    /// source first, in one request.
    pub fn allocate_preshared_scalar(&mut self, value: Scalar) -> (r: AuthenticatedScalarResult)
        requires
            old(self).wf(),
            old(self)@.has_room(18),
        ensures
            final(self).wf(),
            r@ == (AuthenticatedIds {
                share: old(self)@.next_result_id as usize,
                mac: (old(self)@.next_result_id + 17) as usize,
                public_modifier: RESULT_ZERO,
            }),
            old(self)@.triples.len() >= 1 ==> (final(self)@ == old(self)@.preshared_scalar(value)),
            old(self)@.triples.len() >= 1 ==> (final(self)@.advanced(old(self)@, 18, 12, 1)),
            exists|drawn: Seq<(Scalar, Scalar, Scalar)>|
                {
                    &&& #[trigger] old(self)@.draws(drawn, 1)
                    &&& (final(self)@ == old(self)@.with_drawn(drawn).preshared_scalar(value))
                    &&& (final(self)@.advanced(old(self)@.with_drawn(drawn), 18, 12, 1))
                },
    {
        proof {
            self.lemma_wf();
        }
        self.draw_missing_triples(1);
        let ghost drawn = self@.triples.skip(old(self)@.triples.len() as int);
        let r = self.allocate_preshared_scalar_with_triples(value);
        proof {
            assert(old(self)@.draws(drawn, 1));
        }
        r
    }

    /// The same, with the Beaver triples that it uses drawn beforehand
    fn allocate_preshared_scalar_with_triples(&mut self, value: Scalar) -> (r: AuthenticatedScalarResult)
        requires
            old(self).wf(),
            old(self)@.has_room(18),
            old(self)@.triples.len() >= 1,
        ensures
            final(self).wf(),
            r@ == (AuthenticatedIds {
                share: old(self)@.next_result_id as usize,
                mac: (old(self)@.next_result_id + 17) as usize,
                public_modifier: RESULT_ZERO,
            }),
            final(self)@ == old(self)@.preshared_scalar(value),
            final(self)@.advanced(old(self)@, 18, 12, 1),
    {
        proof {
            reveal(FabricState::preshared_scalar);
        }
        let allocated = self.allocate_scalar(value);
        proof {
            assert(self@.triples =~= old(self)@.triples);
        }
        AuthenticatedScalarResult::new_shared(self, allocated)
    }

    /// Allocate a batch of scalars as secret shares of already shared values
    ///
    /// The Beaver triples that the fabric lacks for it are drawn from the
    /// source first, in one request.
    pub fn batch_allocate_preshared_scalar(&mut self, values: Vec<Scalar>) -> (r: Vec<
        AuthenticatedScalarResult,
    >)
        requires
            old(self).wf(),
            values@.len() > 0 ==> old(self)@.has_room(14 * (values@.len() as int) + 2),
        ensures
            final(self).wf(),
            r@.len() == values@.len(),
            values@.len() > 0 ==> AuthenticatedScalarResult::views(r@) == zip_triples(
                range_ids(old(self)@.next_result_id, values@.len() as int),
                range_ids(old(self)@.next_result_id + 13 * values@.len() + 2, values@.len() as int),
                RESULT_ZERO,
            ),
            old(self)@.triples.len() >= values@.len() ==> (final(self)@ == old(self)@.preshared_scalars(values@)),
            exists|drawn: Seq<(Scalar, Scalar, Scalar)>|
                {
                    &&& #[trigger] old(self)@.draws(drawn, values@.len() as int)
                    &&& (final(self)@ == old(self)@.with_drawn(drawn).preshared_scalars(values@))
                },
    {
        proof {
            self.lemma_wf();
        }
        self.draw_missing_triples(values.len());
        let ghost drawn = self@.triples.skip(old(self)@.triples.len() as int);
        let r = self.batch_allocate_preshared_scalar_with_triples(values);
        proof {
            assert(old(self)@.draws(drawn, values@.len() as int));
        }
        r
    }

    /// The same, with the Beaver triples that it uses drawn beforehand
    fn batch_allocate_preshared_scalar_with_triples(&mut self, values: Vec<Scalar>) -> (r: Vec<
        AuthenticatedScalarResult,
    >)
        requires
            old(self).wf(),
            values@.len() > 0 ==> old(self)@.has_room(14 * (values@.len() as int) + 2),
            old(self)@.triples.len() >= values@.len(),
        ensures
            final(self).wf(),
            r@.len() == values@.len(),
            values@.len() > 0 ==> AuthenticatedScalarResult::views(r@) == zip_triples(
                range_ids(old(self)@.next_result_id, values@.len() as int),
                range_ids(old(self)@.next_result_id + 13 * values@.len() + 2, values@.len() as int),
                RESULT_ZERO,
            ),
            final(self)@ == old(self)@.preshared_scalars(values@),
    {
        proof {
            reveal(FabricState::preshared_scalars);
            self.lemma_wf();
        }
        let ghost n = values@.len();
        let values = self.allocate_scalars(values);
        proof {
            assert(ids_of(values@) =~= range_ids(old(self)@.next_result_id, n as int));
            assert(self@.triples =~= old(self)@.triples);
        }
        AuthenticatedScalarResult::new_shared_batch(self, values.as_slice())
    }

    /// Sample a batch of random shared values from the beaver source
    pub fn random_shared_scalars(&mut self, n: usize) -> (r: Vec<ScalarResult>)
        requires
            old(self).wf(),
            old(self)@.has_room(n as int),
        ensures
            final(self).wf(),
            r@.len() == n,
            ids_of(r@) == range_ids(old(self)@.next_result_id, n as int),
            exists|values: Seq<Scalar>|
                values.len() == n && final(self)@ == #[trigger] old(self)@.allocate_all(
                    scalar_values(values),
                ),
    {
        let values_raw = self.draw_shared_values(n);
        let ghost drawn = values_raw@;
        // Wrap the values in a result handle
        let r = self.allocate_scalars(values_raw);
        proof {
            assert(ids_of(r@) =~= range_ids(old(self)@.next_result_id, n as int));
            assert(final(self)@ == old(self)@.allocate_all(scalar_values(drawn)));
        }
        r
    }

    /// Sample a batch of random shared values from the beaver source and allocate them as
    /// `AuthenticatedScalars`
    ///
    /// The Beaver triples that the fabric lacks for it are drawn from the
    /// source first, in one request.
    pub fn random_shared_scalars_authenticated(&mut self, n: usize) -> (r: Vec<
        AuthenticatedScalarResult,
    >)
        requires
            old(self).wf(),
            old(self)@.has_room(18 * n),
        ensures
            final(self).wf(),
            r@.len() == n,
            forall|i: int|
                0 <= i < n ==> (#[trigger] r@[i])@ == (AuthenticatedIds {
                    share: (old(self)@.next_result_id + 18 * i) as usize,
                    mac: (old(self)@.next_result_id + 18 * i + 17) as usize,
                    public_modifier: RESULT_ZERO,
                }),
            old(self)@.triples.len() >= n ==> (exists|values: Seq<Scalar>|
                    values.len() == n && final(self)@ == #[trigger] old(self)@.preshared_each(values)),
            exists|drawn: Seq<(Scalar, Scalar, Scalar)>|
                {
                    &&& #[trigger] old(self)@.draws(drawn, n as int)
                    &&& (exists|values: Seq<Scalar>|
                        values.len() == n && final(self)@ == #[trigger] old(self)@.with_drawn(drawn).preshared_each(values))
                },
    {
        proof {
            self.lemma_wf();
        }
        self.draw_missing_triples(n);
        let ghost drawn = self@.triples.skip(old(self)@.triples.len() as int);
        let r = self.random_shared_scalars_authenticated_with_triples(n);
        proof {
            assert(old(self)@.draws(drawn, n as int));
        }
        r
    }

    /// The same, with the Beaver triples that it uses drawn beforehand
    fn random_shared_scalars_authenticated_with_triples(&mut self, n: usize) -> (r: Vec<
        AuthenticatedScalarResult,
    >)
        requires
            old(self).wf(),
            old(self)@.has_room(18 * n),
            old(self)@.triples.len() >= n,
        ensures
            final(self).wf(),
            r@.len() == n,
            forall|i: int|
                0 <= i < n ==> (#[trigger] r@[i])@ == (AuthenticatedIds {
                    share: (old(self)@.next_result_id + 18 * i) as usize,
                    mac: (old(self)@.next_result_id + 18 * i + 17) as usize,
                    public_modifier: RESULT_ZERO,
                }),
            exists|values: Seq<Scalar>|
                values.len() == n && final(self)@ == #[trigger] old(self)@.preshared_each(values),
    {
        let values_raw = self.draw_shared_values(n);
        let ghost s0 = self@;
        // Wrap the values in an authenticated wrapper
        let mut results: Vec<AuthenticatedScalarResult> = Vec::with_capacity(n);
        let mut i: usize = 0;
        proof {
            assert(values_raw@.subrange(0, 0) =~= Seq::<Scalar>::empty());
            assert(s0.triples.skip(0) =~= s0.triples);
        }
        while i < n
            invariant
                i <= n,
                n == values_raw@.len(),
                self.wf(),
                s0.has_room(18 * n),
                s0.triples.len() >= n,
                self@ == s0.preshared_each(values_raw@.subrange(0, i as int)),
                self@.advanced(s0, 18 * i, 12 * i, i as int),
                results@.len() == i,
                forall|j: int|
                    0 <= j < i ==> (#[trigger] results@[j])@ == (AuthenticatedIds {
                        share: (s0.next_result_id + 18 * j) as usize,
                        mac: (s0.next_result_id + 18 * j + 17) as usize,
                        public_modifier: RESULT_ZERO,
                    }),
            decreases n - i,
        {
            let value = self.allocate_preshared_scalar(values_raw[i]);
            results.push(value);
            proof {
                let next = values_raw@.subrange(0, i + 1);
                assert(next.drop_last() =~= values_raw@.subrange(0, i as int));
                assert(next.last() == values_raw@[i as int]);
                assert(s0.triples.skip(i as int).skip(1) =~= s0.triples.skip(i + 1));
            }
            i += 1;
        }
        proof {
            assert(values_raw@.subrange(0, n as int) =~= values_raw@);
        }
        results
    }

    /// Sample a pair of values that are multiplicative inverses of one another
    ///
    /// The Beaver triples that the fabric lacks for it are drawn from the
    /// source first, in one request.
    pub fn random_inverse_pair(&mut self) -> (r: (AuthenticatedScalarResult, AuthenticatedScalarResult))
        requires
            old(self).wf(),
            old(self)@.has_room(36),
        ensures
            final(self).wf(),
            r.0@ == (AuthenticatedIds {
                share: old(self)@.next_result_id as usize,
                mac: (old(self)@.next_result_id + 17) as usize,
                public_modifier: RESULT_ZERO,
            }),
            r.1@ == (AuthenticatedIds {
                share: (old(self)@.next_result_id + 18) as usize,
                mac: (old(self)@.next_result_id + 35) as usize,
                public_modifier: RESULT_ZERO,
            }),
            old(self)@.triples.len() >= 2 ==> (exists|left: Scalar, right: Scalar|
                    final(self)@ == #[trigger] old(self)@.preshared_scalar(left).preshared_scalar(
                        right,
                    )),
            exists|drawn: Seq<(Scalar, Scalar, Scalar)>|
                {
                    &&& #[trigger] old(self)@.draws(drawn, 2)
                    &&& (exists|left: Scalar, right: Scalar|
                        final(self)@ == #[trigger] old(self)@.with_drawn(drawn).preshared_scalar(left).preshared_scalar(
                            right,
                        ))
                },
    {
        proof {
            self.lemma_wf();
        }
        self.draw_missing_triples(2);
        let ghost drawn = self@.triples.skip(old(self)@.triples.len() as int);
        let r = self.random_inverse_pair_with_triples();
        proof {
            assert(old(self)@.draws(drawn, 2));
        }
        r
    }

    /// The same, with the Beaver triples that it uses drawn beforehand
    fn random_inverse_pair_with_triples(&mut self) -> (r: (AuthenticatedScalarResult, AuthenticatedScalarResult))
        requires
            old(self).wf(),
            old(self)@.has_room(36),
            old(self)@.triples.len() >= 2,
        ensures
            final(self).wf(),
            r.0@ == (AuthenticatedIds {
                share: old(self)@.next_result_id as usize,
                mac: (old(self)@.next_result_id + 17) as usize,
                public_modifier: RESULT_ZERO,
            }),
            r.1@ == (AuthenticatedIds {
                share: (old(self)@.next_result_id + 18) as usize,
                mac: (old(self)@.next_result_id + 35) as usize,
                public_modifier: RESULT_ZERO,
            }),
            exists|left: Scalar, right: Scalar|
                final(self)@ == #[trigger] old(self)@.preshared_scalar(left).preshared_scalar(
                    right,
                ),
    {
        let (l, r) = self.draw_inverse_pair();
        let left = self.allocate_preshared_scalar(l);
        proof {
            assert(old(self)@.triples.skip(1).len() >= 1);
        }
        let right = self.allocate_preshared_scalar(r);
        proof {
            assert(final(self)@ == old(self)@.preshared_scalar(l).preshared_scalar(r));
        }
        (left, right)
    }

    /// Sample a batch of values that are multiplicative inverses of one another
    ///
    /// The Beaver triples that the fabric lacks for it are drawn from the
    /// source first, in one request.
    pub fn random_inverse_pairs(&mut self, n: usize) -> (r: (
        Vec<AuthenticatedScalarResult>,
        Vec<AuthenticatedScalarResult>,
    ))
        requires
            old(self).wf(),
            old(self)@.has_room(28 * n + 2),
        ensures
            final(self).wf(),
            r.0@.len() == n,
            r.1@.len() == n,
            n > 0 ==> AuthenticatedScalarResult::views(r.0@) + AuthenticatedScalarResult::views(
                r.1@,
            ) == zip_triples(
                range_ids(old(self)@.next_result_id, 2 * n),
                range_ids(old(self)@.next_result_id + 26 * n + 2, 2 * n),
                RESULT_ZERO,
            ),
            old(self)@.triples.len() >= 2 * n ==> (exists|pairs: Seq<Scalar>|
                    pairs.len() == 2 * n && final(self)@ == #[trigger] old(self)@.preshared_scalars(
                        pairs,
                    )),
            exists|drawn: Seq<(Scalar, Scalar, Scalar)>|
                {
                    &&& #[trigger] old(self)@.draws(drawn, (2 * n) as int)
                    &&& (exists|pairs: Seq<Scalar>|
                        pairs.len() == 2 * n && final(self)@ == #[trigger] old(self)@.with_drawn(drawn).preshared_scalars(
                            pairs,
                        ))
                },
    {
        proof {
            self.lemma_wf();
        }
        self.draw_missing_triples(2 * n);
        let ghost drawn = self@.triples.skip(old(self)@.triples.len() as int);
        let r = self.random_inverse_pairs_with_triples(n);
        proof {
            assert(old(self)@.draws(drawn, (2 * n) as int));
        }
        r
    }

    /// The same, with the Beaver triples that it uses drawn beforehand
    fn random_inverse_pairs_with_triples(&mut self, n: usize) -> (r: (
        Vec<AuthenticatedScalarResult>,
        Vec<AuthenticatedScalarResult>,
    ))
        requires
            old(self).wf(),
            old(self)@.has_room(28 * n + 2),
            old(self)@.triples.len() >= 2 * n,
        ensures
            final(self).wf(),
            r.0@.len() == n,
            r.1@.len() == n,
            n > 0 ==> AuthenticatedScalarResult::views(r.0@) + AuthenticatedScalarResult::views(
                r.1@,
            ) == zip_triples(
                range_ids(old(self)@.next_result_id, 2 * n),
                range_ids(old(self)@.next_result_id + 26 * n + 2, 2 * n),
                RESULT_ZERO,
            ),
            exists|pairs: Seq<Scalar>|
                pairs.len() == 2 * n && final(self)@ == #[trigger] old(self)@.preshared_scalars(
                    pairs,
                ),
    {
        let (left, right) = self.draw_inverse_pairs(n);
        let mut left_right = left;
        let mut right = right;
        left_right.append(&mut right);
        let ghost drawn = left_right@;
        let authenticated_left_right = self.batch_allocate_preshared_scalar(left_right);
        proof {
            assert(final(self)@ == old(self)@.preshared_scalars(drawn));
        }
        // Split left and right
        let mut left: Vec<AuthenticatedScalarResult> = Vec::with_capacity(n);
        let mut right: Vec<AuthenticatedScalarResult> = Vec::with_capacity(n);
        let mut i: usize = 0;
        let len = authenticated_left_right.len();
        while i < n
            invariant
                i <= n,
                len == 2 * n,
                authenticated_left_right@.len() == 2 * n,
                left@.len() == i,
                right@.len() == i,
                forall|j: int|
                    0 <= j < i ==> (#[trigger] left@[j])@ == authenticated_left_right@[j]@,
                forall|j: int|
                    0 <= j < i ==> (#[trigger] right@[j])@ == authenticated_left_right@[n + j]@,
            decreases n - i,
        {
            left.push(authenticated_left_right[i].clone());
            right.push(authenticated_left_right[n + i].clone());
            i += 1;
        }
        proof {
            assert(AuthenticatedScalarResult::views(left@) + AuthenticatedScalarResult::views(right@)
                =~= AuthenticatedScalarResult::views(authenticated_left_right@));
        }
        (left, right)
    }

    /// Sample a random shared bit from the beaver source
    ///
    /// The Beaver triples that the fabric lacks for it are drawn from the
    /// source first, in one request.
    pub fn random_shared_bit(&mut self) -> (r: AuthenticatedScalarResult)
        requires
            old(self).wf(),
            old(self)@.has_room(18),
        ensures
            final(self).wf(),
            r@ == (AuthenticatedIds {
                share: old(self)@.next_result_id as usize,
                mac: (old(self)@.next_result_id + 17) as usize,
                public_modifier: RESULT_ZERO,
            }),
            old(self)@.triples.len() >= 1 ==> (exists|bit: Scalar| final(self)@ == #[trigger] old(self)@.preshared_scalar(bit)),
            exists|drawn: Seq<(Scalar, Scalar, Scalar)>|
                {
                    &&& #[trigger] old(self)@.draws(drawn, 1)
                    &&& (exists|bit: Scalar| final(self)@ == #[trigger] old(self)@.with_drawn(drawn).preshared_scalar(bit))
                },
    {
        proof {
            self.lemma_wf();
        }
        self.draw_missing_triples(1);
        let ghost drawn = self@.triples.skip(old(self)@.triples.len() as int);
        let r = self.random_shared_bit_with_triples();
        proof {
            assert(old(self)@.draws(drawn, 1));
        }
        r
    }

    /// The same, with the Beaver triples that it uses drawn beforehand
    fn random_shared_bit_with_triples(&mut self) -> (r: AuthenticatedScalarResult)
        requires
            old(self).wf(),
            old(self)@.has_room(18),
            old(self)@.triples.len() >= 1,
        ensures
            final(self).wf(),
            r@ == (AuthenticatedIds {
                share: old(self)@.next_result_id as usize,
                mac: (old(self)@.next_result_id + 17) as usize,
                public_modifier: RESULT_ZERO,
            }),
            exists|bit: Scalar| final(self)@ == #[trigger] old(self)@.preshared_scalar(bit),
    {
        let bit = self.draw_shared_bit();
        let r = self.allocate_preshared_scalar(bit);
        proof {
            assert(final(self)@ == old(self)@.preshared_scalar(bit));
        }
        r
    }

    /// Sample a batch of random shared bits from the beaver source
    ///
    /// The Beaver triples that the fabric lacks for it are drawn from the
    /// source first, in one request.
    pub fn random_shared_bits(&mut self, n: usize) -> (r: Vec<AuthenticatedScalarResult>)
        requires
            old(self).wf(),
            old(self)@.has_room(14 * n + 2),
        ensures
            final(self).wf(),
            r@.len() == n,
            old(self)@.triples.len() >= n ==> (exists|bits: Seq<Scalar>|
                    bits.len() == n && final(self)@ == #[trigger] old(self)@.preshared_scalars(bits)),
            exists|drawn: Seq<(Scalar, Scalar, Scalar)>|
                {
                    &&& #[trigger] old(self)@.draws(drawn, n as int)
                    &&& (exists|bits: Seq<Scalar>|
                        bits.len() == n && final(self)@ == #[trigger] old(self)@.with_drawn(drawn).preshared_scalars(bits))
                },
    {
        proof {
            self.lemma_wf();
        }
        self.draw_missing_triples(n);
        let ghost drawn = self@.triples.skip(old(self)@.triples.len() as int);
        let r = self.random_shared_bits_with_triples(n);
        proof {
            assert(old(self)@.draws(drawn, n as int));
        }
        r
    }

    /// The same, with the Beaver triples that it uses drawn beforehand
    fn random_shared_bits_with_triples(&mut self, n: usize) -> (r: Vec<AuthenticatedScalarResult>)
        requires
            old(self).wf(),
            old(self)@.has_room(14 * n + 2),
            old(self)@.triples.len() >= n,
        ensures
            final(self).wf(),
            r@.len() == n,
            exists|bits: Seq<Scalar>|
                bits.len() == n && final(self)@ == #[trigger] old(self)@.preshared_scalars(bits),
    {
        let bits = self.draw_shared_bits(n);
        let ghost drawn = bits@;
        let r = self.batch_allocate_preshared_scalar(bits);
        proof {
            assert(final(self)@ == old(self)@.preshared_scalars(drawn));
        }
        r
    }
}

/// The multiples of the generator by a list of scalars
pub open spec fn point_masks(blinders: Seq<Scalar>) -> Seq<StarkPoint> {
    Seq::new(
        blinders.len(),
        |i: int| StarkPoint::product(blinders[i]@, StarkPoint::generator_spec()),
    )
}

/// The differences of two lists of points, element by element
pub open spec fn point_differences(a: Seq<StarkPoint>, b: Seq<StarkPoint>) -> Seq<StarkPoint> {
    Seq::new(a.len(), |i: int| StarkPoint::difference(a[i], b[i]))
}

impl FabricState {
    /// The state after a party has shared a batch of scalars with its peer, in
    /// one message: the sender keeps each value less its blinder and sends the
    /// blinders, the other party allocates a slot for them; then the batch is
    /// split and the shares are authenticated
    #[verifier::opaque]
    pub open spec fn shared_scalars(self, values: Seq<Scalar>, sender: PartyId, blinders: Seq<Scalar>)
        -> FabricState {
        let n = values.len() as int;
        let distributed = if self.party_id == sender {
            self.allocate_shared(
                Value::ScalarBatch(scalar_differences(values, blinders)),
                Value::ScalarBatch(blinders),
            )
        } else {
            self.receive()
        };
        distributed.with_batch_gate(
            seq![self.next_result_id as usize],
            n,
            BatchGateFunction::Split,
        ).beaver_batch_mul(
            range_ids(self.next_result_id + 1, n),
            Seq::new(n as nat, |i: int| RESULT_MAC_KEY),
        )
    }

    /// The state after a party has shared a batch of points with its peer, in
    /// one message: the sender keeps each point less its blinder times the
    /// generator and sends those multiples of the generator, the other party
    /// allocates a slot for them; then the batch is split and the shares are
    /// authenticated
    #[verifier::opaque]
    pub open spec fn shared_points(
        self,
        values: Seq<StarkPoint>,
        sender: PartyId,
        blinders: Seq<Scalar>,
    ) -> FabricState {
        let n = values.len() as int;
        let distributed = if self.party_id == sender {
            self.allocate_shared(
                Value::PointBatch(point_differences(values, point_masks(blinders))),
                Value::PointBatch(point_masks(blinders)),
            )
        } else {
            self.receive()
        };
        distributed.with_batch_gate(
            seq![self.next_result_id as usize],
            n,
            BatchGateFunction::Split,
        ).beaver_batch_mul_point(
            Seq::new(n as nat, |i: int| RESULT_MAC_KEY),
            range_ids(self.next_result_id + 1, n),
        )
    }
}

} // verus!
