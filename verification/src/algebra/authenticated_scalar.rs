//! Authenticated shared values after the SPDZ protocol: besides its share of
//! a value, each party holds a share of a MAC on it, and a public modifier
//! that tracks the public constants that were added to the value. This module
//! holds what the scalar and the point layer have in common, and the scalars.

use vstd::prelude::*;

use crate::algebra::mpc_scalar::MpcScalarResult;
use crate::algebra::scalar::Scalar;
use crate::algebra::scalar::ScalarResult;
use crate::beaver::SharedValueSource;
use crate::error::MpcError;
use crate::fabric::gate::BatchGateFunction;
use crate::fabric::gate::Constant;
use crate::fabric::gate::GateFunction;
use crate::fabric::gate::NetworkFunction;
use crate::fabric::result::ids_of;
use crate::fabric::result::range_ids;
use crate::fabric::result::ResultHandle;
use crate::fabric::result::ResultId;
use crate::fabric::result::ResultValue;
use crate::fabric::result::Value;
use crate::fabric::FabricState;
use crate::fabric::MpcFabric;
use crate::fabric::RESULT_MAC_KEY;
use crate::fabric::RESULT_ZERO;
use crate::PARTY0;

verus! {

/// The number of underlying results in an authenticated value
pub const AUTHENTICATED_RESULT_LEN: usize = 3;

/// The three results that make up an authenticated value
#[derive(Clone, Copy, Debug, PartialEq, Eq, Structural)]
pub struct AuthenticatedIds {
    /// The local secret share of the value
    pub share: ResultId,
    /// The local share of the MAC of the value
    pub mac: ResultId,
    /// The public modifier of the value
    pub public_modifier: ResultId,
}

/// The results of a list of authenticated values, one value after the other:
/// share, MAC and public modifier
pub open spec fn flat_ids(values: Seq<AuthenticatedIds>) -> Seq<ResultId> {
    Seq::new(
        3 * values.len(),
        |k: int|
            if k % 3 == 0 {
                values[k / 3].share
            } else if k % 3 == 1 {
                values[k / 3].mac
            } else {
                values[k / 3].public_modifier
            },
    )
}

/// Authenticated values over consecutive results, counted from `first`
pub open spec fn triples_in_range(first: int, count: int) -> Seq<AuthenticatedIds> {
    Seq::new(
        count as nat,
        |i: int|
            AuthenticatedIds {
                share: (first + 3 * i) as usize,
                mac: (first + 3 * i + 1) as usize,
                public_modifier: (first + 3 * i + 2) as usize,
            },
    )
}

/// Authenticated values whose shares and MACs are given in two lists, and
/// whose public modifier is the same result
pub open spec fn zip_triples(shares: Seq<ResultId>, macs: Seq<ResultId>, modifier: ResultId)
    -> Seq<AuthenticatedIds> {
    Seq::new(
        shares.len(),
        |i: int| AuthenticatedIds { share: shares[i], mac: macs[i], public_modifier: modifier },
    )
}

impl FabricState {
    /// The state after two authenticated values have been added: shares, MACs
    /// and public modifiers add up
    pub open spec fn auth_sum(self, a: AuthenticatedIds, b: AuthenticatedIds) -> FabricState {
        self.with_gate(seq![a.share, b.share], GateFunction::Add).with_gate(
            seq![a.mac, b.mac],
            GateFunction::Add,
        ).with_gate(seq![a.public_modifier, b.public_modifier], GateFunction::Add)
    }

    /// The state after an authenticated value has been subtracted from
    /// another: shares, MACs and public modifiers are subtracted
    pub open spec fn auth_difference(self, a: AuthenticatedIds, b: AuthenticatedIds)
        -> FabricState {
        self.with_gate(seq![a.share, b.share], GateFunction::Sub).with_gate(
            seq![a.mac, b.mac],
            GateFunction::Sub,
        ).with_gate(seq![a.public_modifier, b.public_modifier], GateFunction::Sub)
    }

    /// The state after an authenticated value has been masked by a value of a
    /// Beaver triple: shares and MACs are subtracted. The public modifier of
    /// the triple's value is zero, so that of the first value is kept.
    pub open spec fn auth_masked(self, a: AuthenticatedIds, b: AuthenticatedIds)
        -> FabricState {
        self.with_gate(seq![a.share, b.share], GateFunction::Sub).with_gate(
            seq![a.mac, b.mac],
            GateFunction::Sub,
        )
    }

    /// The state after an authenticated value has been negated: share and MAC
    /// are negated, and the public modifier is kept
    pub open spec fn auth_negation(self, a: AuthenticatedIds) -> FabricState {
        self.with_gate(seq![a.share], GateFunction::Neg).with_gate(
            seq![a.mac],
            GateFunction::Neg,
        )
    }

    /// The state after a public constant has been added to an authenticated
    /// value: the first party adds it to its share, the MAC stays, and the
    /// constant is subtracted from the public modifier
    pub open spec fn auth_plus_constant(self, a: AuthenticatedIds, constant: Constant)
        -> FabricState {
        self.share_plus_constant(a.share, constant).with_gate(
            seq![a.public_modifier],
            GateFunction::SubConstant(constant),
        )
    }

    /// The state after a public constant has been subtracted from an
    /// authenticated value: the first party subtracts it from its share, the
    /// MAC stays, and the constant is added to the public modifier
    pub open spec fn auth_minus_constant(self, a: AuthenticatedIds, constant: Constant)
        -> FabricState {
        self.share_minus_constant(a.share, constant).with_gate(
            seq![a.public_modifier],
            GateFunction::AddConstant(constant),
        )
    }

    /// The state after a public result has been added to an authenticated
    /// value: the first party adds it to its share, the other passes its share
    /// on, and the result is subtracted from the public modifier
    pub open spec fn auth_plus_public(self, a: AuthenticatedIds, public: ResultId) -> FabricState {
        let shared = if self.party_id == PARTY0 {
            self.with_gate(
                seq![a.share, public],
                GateFunction::AddPublic { party_id: self.party_id },
            )
        } else {
            self.with_gate(seq![a.share], GateFunction::Pass)
        };
        shared.with_gate(seq![a.public_modifier, public], GateFunction::Sub)
    }

    /// The state after a public result has been subtracted from an
    /// authenticated value: the first party subtracts it from its share, the
    /// other passes its share on, and the result is added to the public
    /// modifier
    pub open spec fn auth_minus_public(self, a: AuthenticatedIds, public: ResultId) -> FabricState {
        let shared = if self.party_id == PARTY0 {
            self.with_gate(
                seq![a.share, public],
                GateFunction::SubPublic { party_id: self.party_id },
            )
        } else {
            self.with_gate(seq![a.share], GateFunction::Pass)
        };
        shared.with_gate(seq![a.public_modifier, public], GateFunction::Add)
    }

    /// The state after each component of an authenticated value has been put
    /// through the same gate
    pub open spec fn auth_each(self, a: AuthenticatedIds, function: GateFunction) -> FabricState {
        self.with_gate(seq![a.share], function).with_gate(seq![a.mac], function).with_gate(
            seq![a.public_modifier],
            function,
        )
    }

    /// The state after each component of an authenticated value has been
    /// multiplied by a public scalar result
    pub open spec fn auth_times_public(self, a: AuthenticatedIds, scalar: ResultId) -> FabricState {
        self.with_gate(seq![scalar, a.share], GateFunction::Mul).with_gate(
            seq![scalar, a.mac],
            GateFunction::Mul,
        ).with_gate(seq![scalar, a.public_modifier], GateFunction::Mul)
    }

    /// The state after each component of an authenticated scalar has been
    /// multiplied by a public result
    pub open spec fn auth_scalar_times(self, a: AuthenticatedIds, public: ResultId) -> FabricState {
        self.with_gate(seq![a.share, public], GateFunction::Mul).with_gate(
            seq![a.mac, public],
            GateFunction::Mul,
        ).with_gate(seq![a.public_modifier, public], GateFunction::Mul)
    }

    /// The state after an authenticated value has been opened and its MAC
    /// checked. The value is opened; each party computes its share of the MAC
    /// check, `key * (value + modifier) - mac`, commits to it under the blinder,
    /// and the parties exchange first the commitments, then the shares, then
    /// the blinders; a last gate gives the verdict. Of the 13 results declared,
    /// the third is the opened value and the last is the verdict.
    #[verifier::opaque]
    pub open spec fn auth_opened(self, a: AuthenticatedIds, blinder: Scalar) -> FabricState {
        let n = self.next_result_id;
        let value = (n + 2) as usize;
        let check = (n + 3) as usize;
        let commitment = (n + 4) as usize;
        let checked = self.opened(a.share).with_gate(
            seq![RESULT_MAC_KEY, value, a.public_modifier, a.mac],
            GateFunction::MacCheck,
        ).with_gate(seq![check], GateFunction::Commit { blinder });
        let peer_commitment = checked.exchanged_id() as usize;
        let committed = checked.exchange(seq![commitment], NetworkFunction::SendArgument);
        let peer_check = committed.exchanged_id() as usize;
        let revealed = committed.exchange(seq![check], NetworkFunction::SendArgument).allocate(
            Value::Scalar(blinder),
        );
        let peer_blinder = revealed.exchanged_id() as usize;
        revealed.exchange(seq![(n + 9) as usize], NetworkFunction::SendArgument).with_gate(
            seq![check, peer_check, peer_blinder, peer_commitment],
            GateFunction::VerifyMacCheck,
        )
    }

    /// The state after a list of values has each been committed to, each under
    /// its own blinder
    pub open spec fn with_commitments(self, values: Seq<ResultId>, blinders: Seq<Scalar>)
        -> FabricState
        decreases values.len(),
    {
        if values.len() == 0 || blinders.len() != values.len() {
            self
        } else {
            self.with_commitments(values.drop_last(), blinders.drop_last()).with_gate(
                seq![values.last()],
                GateFunction::Commit { blinder: blinders.last() },
            )
        }
    }

    /// The arguments of a gate that computes the MAC check shares of a
    /// batch: the key share, then for each value the opened value, the public
    /// modifier and the MAC share
    pub open spec fn mac_check_args(values: Seq<AuthenticatedIds>, opened: int) -> Seq<ResultId> {
        Seq::new(
            1 + 3 * values.len(),
            |k: int|
                if k == 0 {
                    RESULT_MAC_KEY
                } else if (k - 1) % 3 == 0 {
                    (opened + (k - 1) / 3) as usize
                } else if (k - 1) % 3 == 1 {
                    values[(k - 1) / 3].public_modifier
                } else {
                    values[(k - 1) / 3].mac
                },
        )
    }

    /// The state after a batch of authenticated values has been opened and
    /// their MACs checked, with one exchange for each step of the protocol.
    /// Of the `5 n + 8` results declared, the opened values start at the third
    /// and the verdicts are the last `n`.
    #[verifier::opaque]
    pub open spec fn auth_opened_batch(
        self,
        values: Seq<AuthenticatedIds>,
        send: NetworkFunction,
        blinders: Seq<Scalar>,
    ) -> FabricState {
        let n = values.len() as int;
        let first = self.next_result_id;
        let shares = Seq::new(values.len(), |i: int| values[i].share);
        let checks = range_ids(first + n + 2, n);
        let commitments = range_ids(first + 2 * n + 2, n);
        let blinder_ids = range_ids(first + 3 * n + 6, n);
        if n == 0 {
            self
        } else {
            let checked = self.opened_batch(shares, send).with_batch_gate(
                FabricState::mac_check_args(values, first + 2),
                n,
                BatchGateFunction::BatchMacCheck,
            ).with_commitments(checks, blinders);
            let peer_commitments = checked.exchanged_id() as usize;
            let committed = checked.exchange(commitments, NetworkFunction::SendScalarBatch);
            let peer_checks = committed.exchanged_id() as usize;
            let revealed = committed.exchange(checks, send).allocate_all(
                crate::fabric::result::scalar_values(blinders),
            );
            let peer_blinders = revealed.exchanged_id() as usize;
            revealed.exchange(blinder_ids, NetworkFunction::SendScalarBatch).with_batch_gate(
                checks + seq![peer_checks, peer_blinders, peer_commitments],
                n,
                BatchGateFunction::BatchVerifyMacCheck,
            )
        }
    }

    /// The state after an authenticated Beaver triple has been allocated: the
    /// shares of a triple are allocated, and each is multiplied by the MAC key
    /// with a triple of its own. The three values have their shares at the
    /// first three of the 54 results declared and their MACs at the 20th, the
    /// 37th and the last; their public modifiers are zero.
    #[verifier::opaque]
    pub open spec fn with_authenticated_triple(self) -> FabricState {
        let n = self.next_result_id;
        self.with_beaver_triple().beaver_mul(RESULT_MAC_KEY, n as usize).beaver_mul(
            RESULT_MAC_KEY,
            (n + 1) as usize,
        ).beaver_mul(RESULT_MAC_KEY, (n + 2) as usize)
    }

    /// The state after `n` authenticated Beaver triples have been allocated:
    /// the shares of `n` triples are allocated, and each of the three batches is
    /// multiplied by the MAC key, with a triple for each product
    #[verifier::opaque]
    pub open spec fn with_authenticated_triples(self, n: int) -> FabricState {
        let first = self.next_result_id;
        let keys = Seq::new(n as nat, |i: int| RESULT_MAC_KEY);
        self.with_beaver_triples(n).beaver_batch_mul(range_ids(first, n), keys).beaver_batch_mul(
            range_ids(first + n, n),
            keys,
        ).beaver_batch_mul(range_ids(first + 2 * n, n), keys)
    }

    /// The state after two authenticated scalars have been multiplied with an
    /// authenticated Beaver triple `(a, b, c)`: the masked values `d = lhs - a`
    /// and `e = rhs - b` are opened, and the product is
    /// `d * e + d * b + e * a + c`. The product is the last three of the 79
    /// results declared.
    #[verifier::opaque]
    pub open spec fn auth_beaver_mul(self, lhs: AuthenticatedIds, rhs: AuthenticatedIds)
        -> FabricState {
        let n = self.next_result_id;
        let a = AuthenticatedIds {
            share: n as usize,
            mac: (n + 19) as usize,
            public_modifier: RESULT_ZERO,
        };
        let b = AuthenticatedIds {
            share: (n + 1) as usize,
            mac: (n + 36) as usize,
            public_modifier: RESULT_ZERO,
        };
        let c = AuthenticatedIds {
            share: (n + 2) as usize,
            mac: (n + 53) as usize,
            public_modifier: RESULT_ZERO,
        };
        let masked_lhs = AuthenticatedIds {
            share: (n + 54) as usize,
            mac: (n + 55) as usize,
            public_modifier: lhs.public_modifier,
        };
        let masked_rhs = AuthenticatedIds {
            share: (n + 56) as usize,
            mac: (n + 57) as usize,
            public_modifier: rhs.public_modifier,
        };
        let d = (n + 60) as usize;
        let e = (n + 63) as usize;
        let de = (n + 64) as usize;
        let db = AuthenticatedIds {
            share: (n + 65) as usize,
            mac: (n + 66) as usize,
            public_modifier: (n + 67) as usize,
        };
        let de_db = AuthenticatedIds {
            share: (n + 68) as usize,
            mac: (n + 66) as usize,
            public_modifier: (n + 69) as usize,
        };
        let ea = AuthenticatedIds {
            share: (n + 70) as usize,
            mac: (n + 71) as usize,
            public_modifier: (n + 72) as usize,
        };
        let sum = AuthenticatedIds {
            share: (n + 73) as usize,
            mac: (n + 74) as usize,
            public_modifier: (n + 75) as usize,
        };
        self.with_authenticated_triple().auth_masked(lhs, a).auth_masked(rhs, b).opened(
            masked_lhs.share,
        ).opened(masked_rhs.share).with_gate(seq![d, e], GateFunction::Mul).auth_times_public(
            b,
            d,
        ).auth_plus_public(db, de).auth_times_public(a, e).auth_sum(de_db, ea).auth_sum(sum, c)
    }
}

/// A maliciously secure wrapper around an `MpcScalarResult`, includes a MAC as per the
/// SPDZ protocol: https://eprint.iacr.org/2011/535.pdf
/// that ensures security against a malicious adversary
#[derive(Debug)]
pub struct AuthenticatedScalarResult {
    /// The secret shares of the underlying value
    pub share: MpcScalarResult,
    /// The SPDZ style, unconditionally secure MAC of the value
    ///
    /// If the value is `x`, parties hold secret shares of the value
    /// `key * x` for the global MAC key `key`. The parties individually hold
    /// secret shares of this MAC key, `key_i`, so an adversary cannot forge
    /// the MAC of a value that it has changed
    pub mac: MpcScalarResult,
    /// The public modifier tracks additions and subtractions of public values to the
    /// underlying value. This is necessary because in the case of a public addition, only the first
    /// party adds the public value to their share, so the second party must track this up
    /// until the point that the value is opened and the MAC is checked
    pub public_modifier: ScalarResult,
}

impl View for AuthenticatedScalarResult {
    type V = AuthenticatedIds;

    open spec fn view(&self) -> AuthenticatedIds {
        AuthenticatedIds {
            share: self.share.value.id,
            mac: self.mac.value.id,
            public_modifier: self.public_modifier.id,
        }
    }
}

impl Clone for AuthenticatedScalarResult {
    fn clone(&self) -> (r: Self)
        ensures
            r@ == self@,
    {
        AuthenticatedScalarResult {
            share: self.share.clone(),
            mac: self.mac.clone(),
            public_modifier: self.public_modifier.clone(),
        }
    }
}

/// The value that results from opening an authenticated scalar and checking
/// its MAC: the opened value, and the verdict of the MAC check
#[derive(Debug)]
pub struct AuthenticatedScalarOpenResult {
    /// The underlying value
    pub value: ScalarResult,
    /// The result of the MAC check
    pub mac_check: ScalarResult,
}

impl AuthenticatedScalarOpenResult {
    /// What an opening comes to once the value and the verdict are there: the
    /// value if the verdict is one, an authentication error otherwise
    pub open spec fn decided(value: Scalar, check: Scalar) -> Result<Scalar, MpcError> {
        if check == Scalar::of_nat(1) {
            Ok(value)
        } else {
            Err(MpcError::AuthenticationError)
        }
    }

    /// Whether the results of the opening are of their kinds, as far as they
    /// are resident: the value a scalar, the verdict a scalar
    pub open spec fn well_kinded(self, s: FabricState) -> bool {
        &&& s.results.dom().contains(self.value.id as int) ==> s.results[self.value.id as int]
            is Scalar
        &&& s.results.dom().contains(self.mac_check.id as int)
            ==> s.results[self.mac_check.id as int] is Scalar
    }

    /// What the opening resolves to in a state of the fabric in which its
    /// results are of their kinds: nothing while the value or the verdict is
    /// not resident; the value if the verdict is one; an authentication error
    /// otherwise
    pub open spec fn resolved(self, s: FabricState) -> Option<Result<Scalar, MpcError>> {
        if s.results.dom().contains(self.value.id as int) && s.results.dom().contains(
            self.mac_check.id as int,
        ) {
            match (s.results[self.value.id as int], s.results[self.mac_check.id as int]) {
                (Value::Scalar(value), Value::Scalar(check)) => Some(Self::decided(value, check)),
                _ => None,
            }
        } else {
            None
        }
    }

    /// Decide on an opening whose value and verdict are there: the value if
    /// the MAC check passed, an authentication error if it did not
    pub fn decide(value: Scalar, check: &Scalar) -> (r: Result<Scalar, MpcError>)
        ensures
            r == Self::decided(value, *check),
    {
        if *check == Scalar::one() {
            Ok(value)
        } else {
            Err(MpcError::AuthenticationError)
        }
    }

    /// Whether the results of the opening are of their kinds, as far as they
    /// are resident
    pub fn kinds_match<S: SharedValueSource>(&self, fabric: &MpcFabric<S>) -> (r: bool)
        ensures
            r == self.well_kinded(fabric@),
    {
        let value_fits = match fabric.result(self.value.id) {
            Some(ResultValue::Scalar(_)) => true,
            Some(_) => false,
            None => true,
        };
        let check_fits = match fabric.result(self.mac_check.id) {
            Some(ResultValue::Scalar(_)) => true,
            Some(_) => false,
            None => true,
        };
        value_fits && check_fits
    }

    /// Look the opening up: nothing while the value or the verdict is not
    /// resident; the value if the MAC check passed; an authentication error if
    /// it did not. A result of another kind than the opening declares is an
    /// error of the program, and left out.
    pub fn resolve<S: SharedValueSource>(&self, fabric: &MpcFabric<S>) -> (r: Option<
        Result<Scalar, MpcError>,
    >)
        requires
            self.well_kinded(fabric@),
        ensures
            r == self.resolved(fabric@),
    {
        // Await both of the underlying values
        let value = fabric.result(self.value.id);
        let check = fabric.result(self.mac_check.id);
        match (value, check) {
            (Some(ResultValue::Scalar(value)), Some(ResultValue::Scalar(check))) => Some(
                Self::decide(value, &check),
            ),
            _ => None,
        }
    }
}

impl AuthenticatedScalarResult {
    /// The results of a list of authenticated scalars
    pub open spec fn views(values: Seq<AuthenticatedScalarResult>) -> Seq<AuthenticatedIds> {
        Seq::new(values.len(), |i: int| values[i]@)
    }

    /// Create a new result from the given shared value
    ///
    /// The Beaver triples that the fabric lacks for it are drawn from the
    /// source first, in one request.
    pub fn new_shared<S: SharedValueSource>(fabric: &mut MpcFabric<S>, value: ScalarResult) -> (r:
        Self)
        requires
            old(fabric).wf(),
            old(fabric)@.has_room(17),
        ensures
            final(fabric).wf(),
            r@ == (AuthenticatedIds {
                share: value.id,
                mac: (old(fabric)@.next_result_id + 16) as usize,
                public_modifier: RESULT_ZERO,
            }),
            old(fabric)@.triples.len() >= 1 ==> (final(fabric)@ == old(fabric)@.beaver_mul(RESULT_MAC_KEY, value.id)),
            old(fabric)@.triples.len() >= 1 ==> (final(fabric)@.advanced(old(fabric)@, 17, 12, 1)),
            exists|drawn: Seq<(Scalar, Scalar, Scalar)>|
                {
                    &&& #[trigger] old(fabric)@.draws(drawn, 1)
                    &&& (final(fabric)@ == old(fabric)@.with_drawn(drawn).beaver_mul(RESULT_MAC_KEY, value.id))
                    &&& (final(fabric)@.advanced(old(fabric)@.with_drawn(drawn), 17, 12, 1))
                },
    {
        proof {
            fabric.lemma_wf();
        }
        fabric.draw_missing_triples(1);
        let ghost drawn = fabric@.triples.skip(old(fabric)@.triples.len() as int);
        let r = Self::new_shared_with_triples(fabric, value);
        proof {
            assert(old(fabric)@.draws(drawn, 1));
        }
        r
    }

    /// The same, with the Beaver triples that it uses drawn beforehand
    fn new_shared_with_triples<S: SharedValueSource>(fabric: &mut MpcFabric<S>, value: ScalarResult) -> (r:
        Self)
        requires
            old(fabric).wf(),
            old(fabric)@.has_room(17),
            old(fabric)@.triples.len() >= 1,
        ensures
            final(fabric).wf(),
            r@ == (AuthenticatedIds {
                share: value.id,
                mac: (old(fabric)@.next_result_id + 16) as usize,
                public_modifier: RESULT_ZERO,
            }),
            final(fabric)@ == old(fabric)@.beaver_mul(RESULT_MAC_KEY, value.id),
            final(fabric)@.advanced(old(fabric)@, 17, 12, 1),
    {
        // Create an `MpcScalarResult` to represent the fact that this is a shared value
        let mpc_value = MpcScalarResult::new_shared(value);
        let mac_key = MpcScalarResult::new_shared(fabric.mac_key());
        let mac = mac_key.mul(fabric, &mpc_value);
        // Allocate a zero for the public modifier
        let public_modifier = fabric.zero();
        AuthenticatedScalarResult { share: mpc_value, mac, public_modifier }
    }

    /// Create a new batch of shared values
    ///
    /// The Beaver triples that the fabric lacks for it are drawn from the
    /// source first, in one request.
    pub fn new_shared_batch<S: SharedValueSource>(
        fabric: &mut MpcFabric<S>,
        values: &[ScalarResult],
    ) -> (r: Vec<Self>)
        requires
            old(fabric).wf(),
            values@.len() > 0 ==> old(fabric)@.has_room(13 * (values@.len() as int) + 2),
        ensures
            final(fabric).wf(),
            old(fabric)@.triples.len() >= values@.len() ==> (final(fabric)@ == old(fabric)@.beaver_batch_mul(
                    ids_of(values@),
                    Seq::new(values@.len(), |i: int| RESULT_MAC_KEY),
                )),
            r@.len() == values@.len(),
            forall|i: int|
                0 <= i < r@.len() ==> (#[trigger] r@[i])@ == (AuthenticatedIds {
                    share: values@[i].id,
                    mac: (old(fabric)@.next_result_id + 12 * values@.len() + 2 + i) as usize,
                    public_modifier: RESULT_ZERO,
                }),
            values@.len() > 0 ==> Self::views(r@) == zip_triples(
                ids_of(values@),
                range_ids(
                    old(fabric)@.next_result_id + 12 * values@.len() + 2,
                    values@.len() as int,
                ),
                RESULT_ZERO,
            ),
            old(fabric)@.triples.len() >= values@.len() ==> (values@.len() > 0 ==> final(fabric)@.advanced(
                    old(fabric)@,
                    13 * (values@.len() as int) + 2,
                    10,
                    values@.len() as int,
                )),
            exists|drawn: Seq<(Scalar, Scalar, Scalar)>|
                {
                    &&& #[trigger] old(fabric)@.draws(drawn, values@.len() as int)
                    &&& (final(fabric)@ == old(fabric)@.with_drawn(drawn).beaver_batch_mul(
                        ids_of(values@),
                        Seq::new(values@.len(), |i: int| RESULT_MAC_KEY),
                    ))
                    &&& (values@.len() > 0 ==> final(fabric)@.advanced(
                        old(fabric)@.with_drawn(drawn),
                        13 * (values@.len() as int) + 2,
                        10,
                        values@.len() as int,
                    ))
                },
    {
        proof {
            fabric.lemma_wf();
        }
        fabric.draw_missing_triples(values.len());
        let ghost drawn = fabric@.triples.skip(old(fabric)@.triples.len() as int);
        let r = Self::new_shared_batch_with_triples(fabric, values);
        proof {
            assert(old(fabric)@.draws(drawn, values@.len() as int));
        }
        r
    }

    /// The same, with the Beaver triples that it uses drawn beforehand
    fn new_shared_batch_with_triples<S: SharedValueSource>(
        fabric: &mut MpcFabric<S>,
        values: &[ScalarResult],
    ) -> (r: Vec<Self>)
        requires
            old(fabric).wf(),
            values@.len() > 0 ==> old(fabric)@.has_room(13 * (values@.len() as int) + 2),
            old(fabric)@.triples.len() >= values@.len(),
        ensures
            final(fabric).wf(),
            final(fabric)@ == old(fabric)@.beaver_batch_mul(
                ids_of(values@),
                Seq::new(values@.len(), |i: int| RESULT_MAC_KEY),
            ),
            r@.len() == values@.len(),
            forall|i: int|
                0 <= i < r@.len() ==> (#[trigger] r@[i])@ == (AuthenticatedIds {
                    share: values@[i].id,
                    mac: (old(fabric)@.next_result_id + 12 * values@.len() + 2 + i) as usize,
                    public_modifier: RESULT_ZERO,
                }),
            values@.len() > 0 ==> Self::views(r@) == zip_triples(
                ids_of(values@),
                range_ids(
                    old(fabric)@.next_result_id + 12 * values@.len() + 2,
                    values@.len() as int,
                ),
                RESULT_ZERO,
            ),
            values@.len() > 0 ==> final(fabric)@.advanced(
                old(fabric)@,
                13 * (values@.len() as int) + 2,
                10,
                values@.len() as int,
            ),
    {
        if values.len() == 0 {
            proof {
                reveal(FabricState::beaver_batch_mul);
            }
            return Vec::new();
        }
        let n = values.len();
        let first = fabric.next_result_id();
        let mut mpc_values: Vec<MpcScalarResult> = Vec::with_capacity(n);
        let mut mac_keys: Vec<MpcScalarResult> = Vec::with_capacity(n);
        let mut i: usize = 0;
        while i < n
            invariant
                i <= n,
                n == values@.len(),
                mpc_values@.len() == i,
                mac_keys@.len() == i,
                forall|j: int| 0 <= j < i ==> (#[trigger] mpc_values@[j]).value.id == values@[j].id,
                forall|j: int| 0 <= j < i ==> (#[trigger] mac_keys@[j]).value.id == RESULT_MAC_KEY,
            decreases n - i,
        {
            mpc_values.push(MpcScalarResult::new_shared(values[i].clone()));
            mac_keys.push(MpcScalarResult::new_shared(fabric.mac_key()));
            i += 1;
        }
        proof {
            assert(MpcScalarResult::share_ids(mpc_values@) =~= ids_of(values@));
            assert(MpcScalarResult::share_ids(mac_keys@) =~= Seq::new(
                values@.len(),
                |i: int| RESULT_MAC_KEY,
            ));
        }
        let macs = MpcScalarResult::batch_mul(fabric, mpc_values.as_slice(), mac_keys.as_slice());
        let mut result: Vec<AuthenticatedScalarResult> = Vec::with_capacity(n);
        let mut i: usize = 0;
        while i < n
            invariant
                i <= n,
                n == values@.len(),
                n == macs@.len(),
                first + 13 * n + 2 <= usize::MAX,
                result@.len() == i,
                MpcScalarResult::share_ids(macs@) == range_ids(first + 12 * n + 2, n as int),
                forall|j: int|
                    0 <= j < i ==> (#[trigger] result@[j])@ == (AuthenticatedIds {
                        share: values@[j].id,
                        mac: (first + 12 * n + 2 + j) as usize,
                        public_modifier: RESULT_ZERO,
                    }),
            decreases n - i,
        {
            proof {
                assert(MpcScalarResult::share_ids(macs@)[i as int] == macs@[i as int].value.id);
            }
            result.push(
                AuthenticatedScalarResult {
                    share: MpcScalarResult::new_shared(values[i].clone()),
                    mac: macs[i].clone(),
                    public_modifier: fabric.zero(),
                },
            );
            i += 1;
        }
        proof {
            assert(Self::views(result@) =~= zip_triples(
                ids_of(values@),
                range_ids(first + 12 * n + 2, n as int),
                RESULT_ZERO,
            ));
        }
        result
    }

    /// Create a batch of shared values from a batch result
    ///
    /// The batch result combines the batch into one result, so it must be split out
    /// first before creating the `AuthenticatedScalarResult`s
    ///
    /// The Beaver triples that the fabric lacks for it are drawn from the
    /// source first, in one request.
    pub fn new_shared_from_batch_result<S: SharedValueSource>(
        fabric: &mut MpcFabric<S>,
        values: ResultHandle<Vec<Scalar>>,
        n: usize,
    ) -> (r: Vec<Self>)
        requires
            old(fabric).wf(),
            n >= 1,
            old(fabric)@.has_room(14 * n + 2),
        ensures
            final(fabric).wf(),
            old(fabric)@.triples.len() >= n ==> (final(fabric)@ == old(fabric)@.with_batch_gate(
                    seq![values.id],
                    n as int,
                    BatchGateFunction::Split,
                ).beaver_batch_mul(
                    range_ids(old(fabric)@.next_result_id, n as int),
                    Seq::new(n as nat, |i: int| RESULT_MAC_KEY),
                )),
            r@.len() == n,
            Self::views(r@) == zip_triples(
                range_ids(old(fabric)@.next_result_id, n as int),
                range_ids(old(fabric)@.next_result_id + 13 * n + 2, n as int),
                RESULT_ZERO,
            ),
            old(fabric)@.triples.len() >= n ==> (final(fabric)@.advanced(old(fabric)@, 14 * n + 2, 11, n as int)),
            exists|drawn: Seq<(Scalar, Scalar, Scalar)>|
                {
                    &&& #[trigger] old(fabric)@.draws(drawn, n as int)
                    &&& (final(fabric)@ == old(fabric)@.with_drawn(drawn).with_batch_gate(
                        seq![values.id],
                        n as int,
                        BatchGateFunction::Split,
                    ).beaver_batch_mul(
                        range_ids(old(fabric)@.next_result_id, n as int),
                        Seq::new(n as nat, |i: int| RESULT_MAC_KEY),
                    ))
                    &&& (final(fabric)@.advanced(old(fabric)@.with_drawn(drawn), 14 * n + 2, 11, n as int))
                },
    {
        proof {
            fabric.lemma_wf();
        }
        fabric.draw_missing_triples(n);
        let ghost drawn = fabric@.triples.skip(old(fabric)@.triples.len() as int);
        let r = Self::new_shared_from_batch_result_with_triples(fabric, values, n);
        proof {
            assert(old(fabric)@.draws(drawn, n as int));
        }
        r
    }

    /// The same, with the Beaver triples that it uses drawn beforehand
    fn new_shared_from_batch_result_with_triples<S: SharedValueSource>(
        fabric: &mut MpcFabric<S>,
        values: ResultHandle<Vec<Scalar>>,
        n: usize,
    ) -> (r: Vec<Self>)
        requires
            old(fabric).wf(),
            n >= 1,
            old(fabric)@.has_room(14 * n + 2),
            old(fabric)@.triples.len() >= n,
        ensures
            final(fabric).wf(),
            final(fabric)@ == old(fabric)@.with_batch_gate(
                seq![values.id],
                n as int,
                BatchGateFunction::Split,
            ).beaver_batch_mul(
                range_ids(old(fabric)@.next_result_id, n as int),
                Seq::new(n as nat, |i: int| RESULT_MAC_KEY),
            ),
            r@.len() == n,
            Self::views(r@) == zip_triples(
                range_ids(old(fabric)@.next_result_id, n as int),
                range_ids(old(fabric)@.next_result_id + 13 * n + 2, n as int),
                RESULT_ZERO,
            ),
            final(fabric)@.advanced(old(fabric)@, 14 * n + 2, 11, n as int),
    {
        // Convert to a set of scalar results
        let mut args: Vec<ResultId> = Vec::new();
        args.push(values.id);
        proof {
            assert(args@ =~= seq![values.id]);
        }
        let scalar_results: Vec<ScalarResult> = fabric.new_batch_gate_op(
            args,
            n,
            BatchGateFunction::Split,
        );
        let r = Self::new_shared_batch(fabric, scalar_results.as_slice());
        proof {
            assert(old(fabric)@.triples.skip(0).skip(n as int) =~= old(fabric)@.triples.skip(
                n as int,
            ));
        }
        r
    }

    /// Get the ID of the underlying share's result
    pub fn id(&self) -> (r: ResultId)
        ensures
            r == self@.share,
    {
        self.share.id()
    }

    /// Get the ids of the results that must be awaited
    /// before the value is ready
    pub fn ids(&self) -> (r: Vec<ResultId>)
        ensures
            r@ == seq![self@.share, self@.mac, self@.public_modifier],
    {
        let mut ids: Vec<ResultId> = Vec::new();
        ids.push(self.share.id());
        ids.push(self.mac.id());
        ids.push(self.public_modifier.id);
        assert(ids@ =~= seq![self@.share, self@.mac, self@.public_modifier]);
        ids
    }

    /// The three results of the value
    pub fn as_ids(&self) -> (r: AuthenticatedIds)
        ensures
            r == self@,
    {
        AuthenticatedIds {
            share: self.share.value.id,
            mac: self.mac.value.id,
            public_modifier: self.public_modifier.id,
        }
    }

    /// Collect the results of a list of authenticated scalars, one value after
    /// the other
    pub fn collect_flat_ids(values: &[AuthenticatedScalarResult]) -> (r: Vec<ResultId>)
        requires
            3 * values@.len() <= usize::MAX,
        ensures
            r@ == flat_ids(Self::views(values@)),
    {
        let mut ids: Vec<ResultId> = Vec::new();
        let mut i: usize = 0;
        while i < values.len()
            invariant
                i <= values@.len(),
                ids@.len() == 3 * i,
                forall|k: int|
                    0 <= k < 3 * i ==> (#[trigger] ids@[k]) == flat_ids(Self::views(values@))[k],
            decreases values@.len() - i,
        {
            ids.push(values[i].share.value.id);
            ids.push(values[i].mac.value.id);
            ids.push(values[i].public_modifier.id);
            i += 1;
        }
        assert(ids@ =~= flat_ids(Self::views(values@)));
        ids
    }

    /// Convert a flattened list of results into a batch of authenticated
    /// scalars: each run of three results is the share, the MAC and the public
    /// modifier of one of them
    pub fn from_flattened_iterator(handles: &[ScalarResult]) -> (r: Vec<Self>)
        requires
            handles@.len() % 3 == 0,
        ensures
            r@.len() == handles@.len() / 3,
            flat_ids(Self::views(r@)) == ids_of(handles@),
            forall|i: int|
                0 <= i < r@.len() ==> (#[trigger] r@[i])@ == (AuthenticatedIds {
                    share: handles@[3 * i].id,
                    mac: handles@[3 * i + 1].id,
                    public_modifier: handles@[3 * i + 2].id,
                }),
    {
        let len = handles.len();
        let n = len / 3;
        let mut values: Vec<AuthenticatedScalarResult> = Vec::with_capacity(n);
        let mut i: usize = 0;
        while i < n
            invariant
                i <= n,
                len == handles@.len(),
                n == len / 3,
                len % 3 == 0,
                values@.len() == i,
                forall|j: int|
                    0 <= j < i ==> (#[trigger] values@[j])@ == (AuthenticatedIds {
                        share: handles@[3 * j].id,
                        mac: handles@[3 * j + 1].id,
                        public_modifier: handles@[3 * j + 2].id,
                    }),
            decreases n - i,
        {
            values.push(
                AuthenticatedScalarResult {
                    share: MpcScalarResult::new_shared(handles[3 * i].clone()),
                    mac: MpcScalarResult::new_shared(handles[3 * i + 1].clone()),
                    public_modifier: handles[3 * i + 2].clone(),
                },
            );
            i += 1;
        }
        assert(flat_ids(Self::views(values@)) =~= ids_of(handles@));
        values
    }

    /// Open the value without checking its MAC
    pub fn open<S: SharedValueSource>(&self, fabric: &mut MpcFabric<S>) -> (r: ScalarResult)
        requires
            old(fabric).wf(),
            old(fabric)@.has_room(3),
        ensures
            final(fabric).wf(),
            r.id == old(fabric)@.next_result_id + 2,
            final(fabric)@ == old(fabric)@.opened(self@.share),
            final(fabric)@.advanced(old(fabric)@, 3, 2, 0),
    {
        self.share.open(fabric)
    }

    /// Open a batch of values without checking their MACs
    pub fn open_batch<S: SharedValueSource>(fabric: &mut MpcFabric<S>, values: &[Self]) -> (r: Vec<
        ScalarResult,
    >)
        requires
            old(fabric).wf(),
            old(fabric)@.has_room(values@.len() as int + 2),
        ensures
            final(fabric).wf(),
            final(fabric)@ == old(fabric)@.opened_batch(
                Seq::new(values@.len(), |i: int| values@[i]@.share),
                NetworkFunction::SendScalarBatch,
            ),
            r@.len() == values@.len(),
            values@.len() > 0 ==> ids_of(r@) == range_ids(
                old(fabric)@.next_result_id + 2,
                values@.len() as int,
            ) && final(fabric)@.advanced(old(fabric)@, values@.len() as int + 2, 2, 0),
    {
        let shares = Self::collect_shares(values);
        MpcScalarResult::open_batch(fabric, shares.as_slice())
    }

    /// The shares of a list of authenticated scalars
    pub fn collect_shares(values: &[Self]) -> (r: Vec<MpcScalarResult>)
        ensures
            MpcScalarResult::share_ids(r@) == Seq::new(values@.len(), |i: int| values@[i]@.share),
            r@.len() == values@.len(),
    {
        let mut shares: Vec<MpcScalarResult> = Vec::with_capacity(values.len());
        let mut i: usize = 0;
        while i < values.len()
            invariant
                i <= values@.len(),
                shares@.len() == i,
                forall|j: int|
                    0 <= j < i ==> (#[trigger] shares@[j]).value.id == values@[j]@.share,
            decreases values@.len() - i,
        {
            shares.push(values[i].share.clone());
            i += 1;
        }
        assert(MpcScalarResult::share_ids(shares@) =~= Seq::new(
            values@.len(),
            |i: int| values@[i]@.share,
        ));
        shares
    }

    /// Open the value and check its MAC, with a fresh random blinder for the
    /// commitment to the MAC check share
    pub fn open_authenticated<S: SharedValueSource>(&self, fabric: &mut MpcFabric<S>) -> (r:
        AuthenticatedScalarOpenResult)
        requires
            old(fabric).wf(),
            old(fabric)@.has_room(13),
        ensures
            final(fabric).wf(),
            r.value.id == old(fabric)@.next_result_id + 2,
            r.mac_check.id == old(fabric)@.next_result_id + 12,
            exists|blinder: Scalar|
                final(fabric)@ == #[trigger] old(fabric)@.auth_opened(self@, blinder),
    {
        let blinder = Scalar::random();
        let (value, mac_check) = fabric.open_authenticated_ids(self.as_ids(), blinder);
        AuthenticatedScalarOpenResult {
            value: ResultHandle::new(value),
            mac_check: ResultHandle::new(mac_check),
        }
    }

    /// Open the value and check its MAC, with a given blinder for the
    /// commitment to the MAC check share
    pub fn open_authenticated_with_blinder<S: SharedValueSource>(
        &self,
        fabric: &mut MpcFabric<S>,
        blinder: Scalar,
    ) -> (r: AuthenticatedScalarOpenResult)
        requires
            old(fabric).wf(),
            old(fabric)@.has_room(13),
        ensures
            final(fabric).wf(),
            r.value.id == old(fabric)@.next_result_id + 2,
            r.mac_check.id == old(fabric)@.next_result_id + 12,
            final(fabric)@ == old(fabric)@.auth_opened(self@, blinder),
    {
        let (value, mac_check) = fabric.open_authenticated_ids(self.as_ids(), blinder);
        AuthenticatedScalarOpenResult {
            value: ResultHandle::new(value),
            mac_check: ResultHandle::new(mac_check),
        }
    }

    /// Add two authenticated scalars
    pub fn add<S: SharedValueSource>(&self, fabric: &mut MpcFabric<S>, rhs: &Self) -> (r: Self)
        requires
            old(fabric).wf(),
            old(fabric)@.has_room(3),
        ensures
            final(fabric).wf(),
            r@ == triples_in_range(old(fabric)@.next_result_id, 1)[0],
            final(fabric)@ == old(fabric)@.auth_sum(self@, rhs@),
            final(fabric)@.advanced(old(fabric)@, 3, 3, 0),
    {
        let share = self.share.add(fabric, &rhs.share);
        let mac = self.mac.add(fabric, &rhs.mac);
        let public_modifier = self.public_modifier.add(fabric, &rhs.public_modifier);
        AuthenticatedScalarResult { share, mac, public_modifier }
    }

    /// Add a public constant to an authenticated scalar
    pub fn add_scalar<S: SharedValueSource>(&self, fabric: &mut MpcFabric<S>, rhs: Scalar) -> (r:
        Self)
        requires
            old(fabric).wf(),
            old(fabric)@.has_room(2),
        ensures
            final(fabric).wf(),
            r@ == (AuthenticatedIds {
                share: old(fabric)@.next_result_id as usize,
                mac: self@.mac,
                public_modifier: (old(fabric)@.next_result_id + 1) as usize,
            }),
            final(fabric)@ == old(fabric)@.auth_plus_constant(self@, Constant::Scalar(rhs)),
            final(fabric)@.advanced(old(fabric)@, 2, 2, 0),
    {
        let share = self.share.add_scalar(fabric, rhs);
        let public_modifier = self.public_modifier.sub_scalar(fabric, rhs);
        AuthenticatedScalarResult { share, mac: self.mac.clone(), public_modifier }
    }

    /// Add a public result to an authenticated scalar
    pub fn add_result<S: SharedValueSource>(&self, fabric: &mut MpcFabric<S>, rhs: &ScalarResult) -> (r:
        Self)
        requires
            old(fabric).wf(),
            old(fabric)@.has_room(2),
        ensures
            final(fabric).wf(),
            r@ == (AuthenticatedIds {
                share: old(fabric)@.next_result_id as usize,
                mac: self@.mac,
                public_modifier: (old(fabric)@.next_result_id + 1) as usize,
            }),
            final(fabric)@ == old(fabric)@.auth_plus_public(self@, rhs.id),
            final(fabric)@.advanced(old(fabric)@, 2, 2, 0),
    {
        let share = if fabric.party_id() == PARTY0 {
            self.share.add_result(fabric, rhs)
        } else {
            MpcScalarResult { value: fabric.unary_gate(self.share.value.id, GateFunction::Pass) }
        };
        let public_modifier = self.public_modifier.sub(fabric, rhs);
        AuthenticatedScalarResult { share, mac: self.mac.clone(), public_modifier }
    }

    /// Subtract an authenticated scalar from another: shares, MACs and public
    /// modifiers are subtracted
    pub fn sub<S: SharedValueSource>(&self, fabric: &mut MpcFabric<S>, rhs: &Self) -> (r: Self)
        requires
            old(fabric).wf(),
            old(fabric)@.has_room(3),
        ensures
            final(fabric).wf(),
            r@ == triples_in_range(old(fabric)@.next_result_id, 1)[0],
            final(fabric)@ == old(fabric)@.auth_difference(self@, rhs@),
            final(fabric)@.advanced(old(fabric)@, 3, 3, 0),
    {
        let share = self.share.sub(fabric, &rhs.share);
        let mac = self.mac.sub(fabric, &rhs.mac);
        let public_modifier = self.public_modifier.sub(fabric, &rhs.public_modifier);
        AuthenticatedScalarResult { share, mac, public_modifier }
    }

    /// Mask an authenticated scalar by a value of a Beaver triple: share and
    /// MAC are subtracted. The public modifier of a triple's value is zero, so
    /// that of the scalar is that of the difference.
    pub(crate) fn masked_by<S: SharedValueSource>(&self, fabric: &mut MpcFabric<S>, rhs: &Self) -> (r:
        Self)
        requires
            old(fabric).wf(),
            old(fabric)@.has_room(2),
        ensures
            final(fabric).wf(),
            r@ == (AuthenticatedIds {
                share: old(fabric)@.next_result_id as usize,
                mac: (old(fabric)@.next_result_id + 1) as usize,
                public_modifier: self@.public_modifier,
            }),
            final(fabric)@ == old(fabric)@.auth_masked(self@, rhs@),
            final(fabric)@.advanced(old(fabric)@, 2, 2, 0),
    {
        let share = self.share.sub(fabric, &rhs.share);
        let mac = self.mac.sub(fabric, &rhs.mac);
        AuthenticatedScalarResult { share, mac, public_modifier: self.public_modifier.clone() }
    }

    /// Subtract a public constant from an authenticated scalar
    pub fn sub_scalar<S: SharedValueSource>(&self, fabric: &mut MpcFabric<S>, rhs: Scalar) -> (r:
        Self)
        requires
            old(fabric).wf(),
            old(fabric)@.has_room(2),
        ensures
            final(fabric).wf(),
            r@ == (AuthenticatedIds {
                share: old(fabric)@.next_result_id as usize,
                mac: self@.mac,
                public_modifier: (old(fabric)@.next_result_id + 1) as usize,
            }),
            final(fabric)@ == old(fabric)@.auth_minus_constant(self@, Constant::Scalar(rhs)),
            final(fabric)@.advanced(old(fabric)@, 2, 2, 0),
    {
        let share = self.share.sub_scalar(fabric, rhs);
        let public_modifier = self.public_modifier.add_scalar(fabric, rhs);
        AuthenticatedScalarResult { share, mac: self.mac.clone(), public_modifier }
    }

    /// Negate an authenticated scalar
    pub fn neg<S: SharedValueSource>(&self, fabric: &mut MpcFabric<S>) -> (r: Self)
        requires
            old(fabric).wf(),
            old(fabric)@.has_room(2),
        ensures
            final(fabric).wf(),
            r@ == (AuthenticatedIds {
                share: old(fabric)@.next_result_id as usize,
                mac: (old(fabric)@.next_result_id + 1) as usize,
                public_modifier: self@.public_modifier,
            }),
            final(fabric)@ == old(fabric)@.auth_negation(self@),
            final(fabric)@.advanced(old(fabric)@, 2, 2, 0),
    {
        let share = self.share.neg(fabric);
        let mac = self.mac.neg(fabric);
        AuthenticatedScalarResult { share, mac, public_modifier: self.public_modifier.clone() }
    }

    /// Multiply an authenticated scalar by a public constant
    pub fn mul_scalar<S: SharedValueSource>(&self, fabric: &mut MpcFabric<S>, rhs: Scalar) -> (r:
        Self)
        requires
            old(fabric).wf(),
            old(fabric)@.has_room(3),
        ensures
            final(fabric).wf(),
            r@ == triples_in_range(old(fabric)@.next_result_id, 1)[0],
            final(fabric)@ == old(fabric)@.auth_each(
                self@,
                GateFunction::MulConstant(Constant::Scalar(rhs)),
            ),
            final(fabric)@.advanced(old(fabric)@, 3, 3, 0),
    {
        let share = self.share.mul_scalar(fabric, rhs);
        let mac = self.mac.mul_scalar(fabric, rhs);
        let public_modifier = self.public_modifier.mul_scalar(fabric, rhs);
        AuthenticatedScalarResult { share, mac, public_modifier }
    }

    /// Multiply an authenticated scalar by a public result
    pub fn mul_result<S: SharedValueSource>(&self, fabric: &mut MpcFabric<S>, rhs: &ScalarResult) -> (r:
        Self)
        requires
            old(fabric).wf(),
            old(fabric)@.has_room(3),
        ensures
            final(fabric).wf(),
            r@ == triples_in_range(old(fabric)@.next_result_id, 1)[0],
            final(fabric)@ == old(fabric)@.auth_times_public(self@, rhs.id),
            final(fabric)@.advanced(old(fabric)@, 3, 3, 0),
    {
        let share = self.share.mul_result(fabric, rhs);
        let mac = self.mac.mul_result(fabric, rhs);
        let public_modifier = rhs.mul(fabric, &self.public_modifier);
        AuthenticatedScalarResult { share, mac, public_modifier }
    }

    /// Multiply two authenticated scalars with an authenticated Beaver triple.
    ///
    /// For a triple `(a, b, c)` with `c = a * b`, the parties open `d = self - a`
    /// and `e = rhs - b`; then `self * rhs = d * e + d * b + e * a + c`.
    ///
    /// The Beaver triples that the fabric lacks for it are drawn from the
    /// source first, in one request.
    pub fn mul<S: SharedValueSource>(&self, fabric: &mut MpcFabric<S>, rhs: &Self) -> (r: Self)
        requires
            old(fabric).wf(),
            old(fabric)@.has_room(79),
        ensures
            final(fabric).wf(),
            r@ == triples_in_range(old(fabric)@.next_result_id + 76, 1)[0],
            old(fabric)@.triples.len() >= 4 ==> (final(fabric)@ == old(fabric)@.auth_beaver_mul(self@, rhs@)),
            old(fabric)@.triples.len() >= 4 ==> (final(fabric)@.advanced(old(fabric)@, 79, 59, 4)),
            exists|drawn: Seq<(Scalar, Scalar, Scalar)>|
                {
                    &&& #[trigger] old(fabric)@.draws(drawn, 4)
                    &&& (final(fabric)@ == old(fabric)@.with_drawn(drawn).auth_beaver_mul(self@, rhs@))
                    &&& (final(fabric)@.advanced(old(fabric)@.with_drawn(drawn), 79, 59, 4))
                },
    {
        proof {
            fabric.lemma_wf();
        }
        fabric.draw_missing_triples(4);
        let ghost drawn = fabric@.triples.skip(old(fabric)@.triples.len() as int);
        let r = self.mul_with_triples(fabric, rhs);
        proof {
            assert(old(fabric)@.draws(drawn, 4));
        }
        r
    }

    /// The same, with the Beaver triples that it uses drawn beforehand
    fn mul_with_triples<S: SharedValueSource>(&self, fabric: &mut MpcFabric<S>, rhs: &Self) -> (r: Self)
        requires
            old(fabric).wf(),
            old(fabric)@.has_room(79),
            old(fabric)@.triples.len() >= 4,
        ensures
            final(fabric).wf(),
            r@ == triples_in_range(old(fabric)@.next_result_id + 76, 1)[0],
            final(fabric)@ == old(fabric)@.auth_beaver_mul(self@, rhs@),
            final(fabric)@.advanced(old(fabric)@, 79, 59, 4),
    {
        proof {
            reveal(FabricState::auth_beaver_mul);
        }
        // Sample a beaver triplet
        let (a, b, c) = fabric.next_authenticated_triple();
        // Mask the left and right hand sides
        let masked_lhs = self.masked_by(fabric, &a);
        let masked_rhs = rhs.masked_by(fabric, &b);
        // Open these values to get d = lhs - a, e = rhs - b
        let d = masked_lhs.open(fabric);
        let e = masked_rhs.open(fabric);
        // Use the beaver identity to compute the result
        let de = d.mul(fabric, &e);
        let db = b.mul_result(fabric, &d);
        let de_db = db.add_result(fabric, &de);
        let ea = a.mul_result(fabric, &e);
        let sum = de_db.add(fabric, &ea);
        sum.add(fabric, &c)
    }

    /// Subtract a batch of authenticated scalars from another, element by
    /// element
    pub fn batch_sub<S: SharedValueSource>(
        fabric: &mut MpcFabric<S>,
        a: &[AuthenticatedScalarResult],
        b: &[AuthenticatedScalarResult],
    ) -> (r: Vec<AuthenticatedScalarResult>)
        requires
            old(fabric).wf(),
            a@.len() == b@.len(),
            old(fabric)@.has_room(3 * (a@.len() as int)),
        ensures
            final(fabric).wf(),
            final(fabric)@ == (if a@.len() == 0 {
                old(fabric)@
            } else {
                old(fabric)@.with_batch_gate(
                    flat_ids(Self::views(a@)) + flat_ids(Self::views(b@)),
                    3 * (a@.len() as int),
                    BatchGateFunction::BatchSub,
                )
            }),
            r@.len() == a@.len(),
            Self::views(r@) == triples_in_range(old(fabric)@.next_result_id, a@.len() as int),
            a@.len() > 0 ==> final(fabric)@.advanced(old(fabric)@, 3 * (a@.len() as int), 1, 0),
    {
        if a.len() == 0 {
            let r: Vec<AuthenticatedScalarResult> = Vec::new();
            assert(Self::views(r@) =~= triples_in_range(old(fabric)@.next_result_id, 0));
            return r;
        }
        proof {
            fabric.lemma_wf();
        }
        let handles = fabric.batch_gate::<Scalar>(
            Self::collect_flat_ids(a),
            Self::collect_flat_ids(b),
            3 * a.len(),
            BatchGateFunction::BatchSub,
        );
        let r = Self::from_flattened_iterator(handles.as_slice());
        proof {
            assert(Self::views(r@) =~= triples_in_range(
                old(fabric)@.next_result_id,
                a@.len() as int,
            )) by {
                assert forall|i: int| 0 <= i < r@.len() implies Self::views(r@)[i]
                    == triples_in_range(old(fabric)@.next_result_id, a@.len() as int)[i] by {
                    assert(ids_of(handles@)[3 * i] == handles@[3 * i].id);
                    assert(ids_of(handles@)[3 * i + 1] == handles@[3 * i + 1].id);
                    assert(ids_of(handles@)[3 * i + 2] == handles@[3 * i + 2].id);
                }
            }
        }
        r
    }
}

impl<S: SharedValueSource> MpcFabric<S> {
    /// Open an authenticated value and check its MAC. Returns the ids of the
    /// opened value and of the verdict.
    pub fn open_authenticated_ids(&mut self, a: AuthenticatedIds, blinder: Scalar) -> (r: (
        ResultId,
        ResultId,
    ))
        requires
            old(self).wf(),
            old(self)@.has_room(13),
        ensures
            final(self).wf(),
            r.0 == old(self)@.next_result_id + 2,
            r.1 == old(self)@.next_result_id + 12,
            final(self)@ == old(self)@.auth_opened(a, blinder),
            final(self)@.advanced(old(self)@, 13, 8, 0),
    {
        proof {
            reveal(FabricState::auth_opened);
        }
        // Both parties open the underlying value
        let share = MpcScalarResult::new_shared(ResultHandle::new(a.share));
        let recovered_value = share.open(self);
        // Add a gate to compute the MAC check value: `key_share * opened_value - mac_share`
        let mut args: Vec<ResultId> = Vec::new();
        args.push(RESULT_MAC_KEY);
        args.push(recovered_value.id);
        args.push(a.public_modifier);
        args.push(a.mac);
        proof {
            assert(args@ =~= seq![RESULT_MAC_KEY, recovered_value.id, a.public_modifier, a.mac]);
        }
        let mac_check: ResultHandle<Scalar> = self.new_gate_op(args, GateFunction::MacCheck);
        // Compute a commitment to this value and share it with the peer
        let commitment: ResultHandle<Scalar> = self.unary_gate(
            mac_check.id,
            GateFunction::Commit { blinder },
        );
        let peer_commit = self.exchange_value(&commitment);
        // Once the parties have exchanged their commitments, they can open the underlying MAC
        // check value as they are bound by the commitment
        let peer_mac_check = self.exchange_value(&mac_check);
        let blinder_result = self.allocate_scalar(blinder);
        let peer_blinder = self.exchange_value(&blinder_result);
        // Check the peer's commitment and the sum of the MAC checks
        let mut args: Vec<ResultId> = Vec::new();
        args.push(mac_check.id);
        args.push(peer_mac_check.id);
        args.push(peer_blinder.id);
        args.push(peer_commit.id);
        proof {
            assert(args@ =~= seq![mac_check.id, peer_mac_check.id, peer_blinder.id, peer_commit.id]);
        }
        let commitment_check: ResultHandle<Scalar> = self.new_gate_op(
            args,
            GateFunction::VerifyMacCheck,
        );
        (recovered_value.id, commitment_check.id)
    }

    /// Sample the next beaver triplet with MACs from the beaver source
    ///
    /// The Beaver triples that the fabric lacks for it are drawn from the
    /// source first, in one request.
    pub fn next_authenticated_triple(&mut self) -> (r: (
        AuthenticatedScalarResult,
        AuthenticatedScalarResult,
        AuthenticatedScalarResult,
    ))
        requires
            old(self).wf(),
            old(self)@.has_room(54),
        ensures
            final(self).wf(),
            r.0@ == (AuthenticatedIds {
                share: old(self)@.next_result_id as usize,
                mac: (old(self)@.next_result_id + 19) as usize,
                public_modifier: RESULT_ZERO,
            }),
            r.1@ == (AuthenticatedIds {
                share: (old(self)@.next_result_id + 1) as usize,
                mac: (old(self)@.next_result_id + 36) as usize,
                public_modifier: RESULT_ZERO,
            }),
            r.2@ == (AuthenticatedIds {
                share: (old(self)@.next_result_id + 2) as usize,
                mac: (old(self)@.next_result_id + 53) as usize,
                public_modifier: RESULT_ZERO,
            }),
            old(self)@.triples.len() >= 4 ==> final(self)@ == old(self)@.with_authenticated_triple(),
            old(self)@.triples.len() >= 4 ==> (final(self)@.advanced(old(self)@, 54, 36, 4)),
            exists|drawn: Seq<(Scalar, Scalar, Scalar)>|
                {
                    &&& #[trigger] old(self)@.draws(drawn, 4)
                    &&& (final(self)@ == old(self)@.with_drawn(drawn).with_authenticated_triple())
                    &&& (final(self)@.advanced(old(self)@.with_drawn(drawn), 54, 36, 4))
                },
    {
        proof {
            self.lemma_wf();
        }
        self.draw_missing_triples(4);
        let ghost drawn = self@.triples.skip(old(self)@.triples.len() as int);
        let r = self.next_authenticated_triple_with_triples();
        proof {
            assert(old(self)@.draws(drawn, 4));
        }
        r
    }

    /// The same, with the Beaver triples that it uses drawn beforehand
    fn next_authenticated_triple_with_triples(&mut self) -> (r: (
        AuthenticatedScalarResult,
        AuthenticatedScalarResult,
        AuthenticatedScalarResult,
    ))
        requires
            old(self).wf(),
            old(self)@.has_room(54),
            old(self)@.triples.len() >= 4,
        ensures
            final(self).wf(),
            r.0@ == (AuthenticatedIds {
                share: old(self)@.next_result_id as usize,
                mac: (old(self)@.next_result_id + 19) as usize,
                public_modifier: RESULT_ZERO,
            }),
            r.1@ == (AuthenticatedIds {
                share: (old(self)@.next_result_id + 1) as usize,
                mac: (old(self)@.next_result_id + 36) as usize,
                public_modifier: RESULT_ZERO,
            }),
            r.2@ == (AuthenticatedIds {
                share: (old(self)@.next_result_id + 2) as usize,
                mac: (old(self)@.next_result_id + 53) as usize,
                public_modifier: RESULT_ZERO,
            }),
            final(self)@ == old(self)@.with_authenticated_triple(),
            final(self)@.advanced(old(self)@, 54, 36, 4),
    {
        proof {
            reveal(FabricState::with_authenticated_triple);
        }
        let (a, b, c) = self.next_beaver_triple();
        proof {
            assert(old(self)@.triples.skip(1) =~= old(self)@.triples.drop_first());
        }
        let a = AuthenticatedScalarResult::new_shared(self, a.value);
        let b = AuthenticatedScalarResult::new_shared(self, b.value);
        let c = AuthenticatedScalarResult::new_shared(self, c.value);
        (a, b, c)
    }

    /// Sample the next batch of beaver triples as authenticated scalars
    ///
    /// The Beaver triples that the fabric lacks for it are drawn from the
    /// source first, in one request.
    pub fn next_authenticated_triple_batch(&mut self, n: usize) -> (r: (
        Vec<AuthenticatedScalarResult>,
        Vec<AuthenticatedScalarResult>,
        Vec<AuthenticatedScalarResult>,
    ))
        requires
            old(self).wf(),
            old(self)@.has_room(42 * n + 6),
        ensures
            final(self).wf(),
            r.0@.len() == n,
            r.1@.len() == n,
            r.2@.len() == n,
            AuthenticatedScalarResult::views(r.0@) == zip_triples(
                range_ids(old(self)@.next_result_id, n as int),
                range_ids(old(self)@.next_result_id + 15 * n + 2, n as int),
                RESULT_ZERO,
            ),
            AuthenticatedScalarResult::views(r.1@) == zip_triples(
                range_ids(old(self)@.next_result_id + n, n as int),
                range_ids(old(self)@.next_result_id + 28 * n + 4, n as int),
                RESULT_ZERO,
            ),
            AuthenticatedScalarResult::views(r.2@) == zip_triples(
                range_ids(old(self)@.next_result_id + 2 * n, n as int),
                range_ids(old(self)@.next_result_id + 41 * n + 6, n as int),
                RESULT_ZERO,
            ),
            old(self)@.triples.len() >= 4 * n ==> (final(self)@ == (if n == 0 {
                    old(self)@
                } else {
                    old(self)@.with_authenticated_triples(n as int)
                })),
            old(self)@.triples.len() >= 4 * n ==> (n > 0 ==> final(self)@.advanced(old(self)@, 42 * n + 6, 30, 4 * n)),
            exists|drawn: Seq<(Scalar, Scalar, Scalar)>|
                {
                    &&& #[trigger] old(self)@.draws(drawn, (4 * n) as int)
                    &&& (final(self)@ == (if n == 0 {
                        old(self)@.with_drawn(drawn)
                    } else {
                        old(self)@.with_drawn(drawn).with_authenticated_triples(n as int)
                    }))
                    &&& (n > 0 ==> final(self)@.advanced(old(self)@.with_drawn(drawn), 42 * n + 6, 30, 4 * n))
                },
    {
        proof {
            self.lemma_wf();
        }
        self.draw_missing_triples(4 * n);
        let ghost drawn = self@.triples.skip(old(self)@.triples.len() as int);
        let r = self.next_authenticated_triple_batch_with_triples(n);
        proof {
            assert(old(self)@.draws(drawn, (4 * n) as int));
        }
        r
    }

    /// The same, with the Beaver triples that it uses drawn beforehand
    fn next_authenticated_triple_batch_with_triples(&mut self, n: usize) -> (r: (
        Vec<AuthenticatedScalarResult>,
        Vec<AuthenticatedScalarResult>,
        Vec<AuthenticatedScalarResult>,
    ))
        requires
            old(self).wf(),
            old(self)@.has_room(42 * n + 6),
            old(self)@.triples.len() >= 4 * n,
        ensures
            final(self).wf(),
            r.0@.len() == n,
            r.1@.len() == n,
            r.2@.len() == n,
            AuthenticatedScalarResult::views(r.0@) == zip_triples(
                range_ids(old(self)@.next_result_id, n as int),
                range_ids(old(self)@.next_result_id + 15 * n + 2, n as int),
                RESULT_ZERO,
            ),
            AuthenticatedScalarResult::views(r.1@) == zip_triples(
                range_ids(old(self)@.next_result_id + n, n as int),
                range_ids(old(self)@.next_result_id + 28 * n + 4, n as int),
                RESULT_ZERO,
            ),
            AuthenticatedScalarResult::views(r.2@) == zip_triples(
                range_ids(old(self)@.next_result_id + 2 * n, n as int),
                range_ids(old(self)@.next_result_id + 41 * n + 6, n as int),
                RESULT_ZERO,
            ),
            final(self)@ == (if n == 0 {
                old(self)@
            } else {
                old(self)@.with_authenticated_triples(n as int)
            }),
            n > 0 ==> final(self)@.advanced(old(self)@, 42 * n + 6, 30, 4 * n),
    {
        if n == 0 {
            let a: Vec<AuthenticatedScalarResult> = Vec::new();
            let b: Vec<AuthenticatedScalarResult> = Vec::new();
            let c: Vec<AuthenticatedScalarResult> = Vec::new();
            proof {
                let first = old(self)@.next_result_id;
                assert(AuthenticatedScalarResult::views(a@) =~= zip_triples(
                    range_ids(first, 0),
                    range_ids(first + 2, 0),
                    RESULT_ZERO,
                ));
                assert(AuthenticatedScalarResult::views(b@) =~= zip_triples(
                    range_ids(first, 0),
                    range_ids(first + 4, 0),
                    RESULT_ZERO,
                ));
                assert(AuthenticatedScalarResult::views(c@) =~= zip_triples(
                    range_ids(first, 0),
                    range_ids(first + 6, 0),
                    RESULT_ZERO,
                ));
            }
            return (a, b, c);
        }
        proof {
            reveal(FabricState::with_authenticated_triples);
        }
        let first = self.next_result_id();
        self.next_beaver_triple_batch(n);
        let a_allocated = crate::fabric::result::handles_in_range::<Scalar>(first, n);
        let b_allocated = crate::fabric::result::handles_in_range::<Scalar>(first + n, n);
        let c_allocated = crate::fabric::result::handles_in_range::<Scalar>(first + 2 * n, n);
        let a = AuthenticatedScalarResult::new_shared_batch(self, a_allocated.as_slice());
        let b = AuthenticatedScalarResult::new_shared_batch(self, b_allocated.as_slice());
        let c = AuthenticatedScalarResult::new_shared_batch(self, c_allocated.as_slice());
        proof {
            let s0 = old(self)@;
            assert(s0.triples.skip(n as int).skip(n as int) =~= s0.triples.skip(2 * n));
            assert(s0.triples.skip(2 * n).skip(n as int) =~= s0.triples.skip(3 * n));
            assert(s0.triples.skip(3 * n).skip(n as int) =~= s0.triples.skip(4 * n));
        }
        (a, b, c)
    }

    /// Open a batch of authenticated values and check their MACs, with one
    /// blinder for each commitment. Returns the id of the first opened value and
    /// the id of the first verdict; the others follow them.
    pub fn open_authenticated_batch_ids(
        &mut self,
        values: &Vec<AuthenticatedIds>,
        send: NetworkFunction,
        blinders: Vec<Scalar>,
    ) -> (r: (ResultId, ResultId))
        requires
            old(self).wf(),
            values@.len() >= 1,
            blinders@.len() == values@.len(),
            old(self)@.has_room(5 * (values@.len() as int) + 8),
        ensures
            final(self).wf(),
            r.0 == old(self)@.next_result_id + 2,
            r.1 == old(self)@.next_result_id + 4 * values@.len() + 8,
            final(self)@ == old(self)@.auth_opened_batch(values@, send, blinders@),
            final(self)@.advanced(
                old(self)@,
                5 * (values@.len() as int) + 8,
                values@.len() as int + 7,
                0,
            ),
    {
        proof {
            reveal(FabricState::auth_opened_batch);
            self.lemma_wf();
        }
        let n = values.len();
        let first = self.next_result_id();
        let ghost s0 = self@;
        // Open the values
        let mut shares: Vec<ResultId> = Vec::with_capacity(n);
        let mut i: usize = 0;
        while i < n
            invariant
                i <= n,
                n == values@.len(),
                shares@.len() == i,
                forall|j: int| 0 <= j < i ==> (#[trigger] shares@[j]) == values@[j].share,
            decreases n - i,
        {
            shares.push(values[i].share);
            i += 1;
        }
        proof {
            assert(shares@ =~= Seq::new(values@.len(), |i: int| values@[i].share));
            reveal(FabricState::opened_batch);
        }
        let mut open_args = shares.clone();
        let peer_shares = self.exchange_ids(shares, send);
        open_args.push(peer_shares);
        let party_id = self.party_id();
        self.new_batch_gate_op::<Vec<u8>>(open_args, n, BatchGateFunction::BatchOpen { party_id });
        // Compute the shares of the MAC check in batch
        let mut mac_check_deps: Vec<ResultId> = Vec::with_capacity(1 + 3 * n);
        mac_check_deps.push(RESULT_MAC_KEY);
        let mut i: usize = 0;
        while i < n
            invariant
                i <= n,
                n == values@.len(),
                first + 5 * n + 8 <= usize::MAX,
                mac_check_deps@.len() == 1 + 3 * i,
                forall|k: int|
                    0 <= k < 1 + 3 * i ==> (#[trigger] mac_check_deps@[k])
                        == FabricState::mac_check_args(values@, first + 2)[k],
            decreases n - i,
        {
            mac_check_deps.push(first + 2 + i);
            mac_check_deps.push(values[i].public_modifier);
            mac_check_deps.push(values[i].mac);
            i += 1;
        }
        proof {
            assert(mac_check_deps@ =~= FabricState::mac_check_args(values@, first + 2));
        }
        self.new_batch_gate_op::<Vec<u8>>(mac_check_deps, n, BatchGateFunction::BatchMacCheck);
        // Commit to the MAC checks
        let checks = first + n + 2;
        let ghost s1 = self@;
        let ghost check_ids = range_ids(first + n + 2, n as int);
        let mut i: usize = 0;
        proof {
            assert(check_ids.subrange(0, 0) =~= Seq::<ResultId>::empty());
        }
        while i < n
            invariant
                i <= n,
                n == values@.len(),
                n == blinders@.len(),
                checks == first + n + 2,
                check_ids == range_ids(first + n + 2, n as int),
                first + 5 * n + 8 <= usize::MAX,
                self.wf(),
                s0.has_room(5 * n + 8),
                self@.advanced(s1, i as int, i as int, 0),
                s1.advanced(s0, 2 * n + 2, 3, 0),
                self@ == s1.with_commitments(
                    check_ids.subrange(0, i as int),
                    blinders@.subrange(0, i as int),
                ),
            decreases n - i,
        {
            self.unary_gate::<Scalar>(checks + i, GateFunction::Commit { blinder: blinders[i] });
            proof {
                let values_next = check_ids.subrange(0, i + 1);
                let blinders_next = blinders@.subrange(0, i + 1);
                assert(values_next.drop_last() =~= check_ids.subrange(0, i as int));
                assert(blinders_next.drop_last() =~= blinders@.subrange(0, i as int));
                assert(values_next.last() == (checks + i) as usize);
            }
            i += 1;
        }
        proof {
            assert(check_ids.subrange(0, n as int) =~= check_ids);
            assert(blinders@.subrange(0, n as int) =~= blinders@);
        }
        // Exchange the commitments, then the MAC checks and the commitment blinders
        let commitments = crate::fabric::result::handles_in_range::<Scalar>(first + 2 * n + 2, n);
        let peer_comms = self.exchange_ids(
            crate::fabric::result::collect_ids(commitments.as_slice()),
            NetworkFunction::SendScalarBatch,
        );
        let check_handles = crate::fabric::result::handles_in_range::<Scalar>(checks, n);
        let peer_mac_checks = self.exchange_ids(
            crate::fabric::result::collect_ids(check_handles.as_slice()),
            send,
        );
        let blinder_handles = self.allocate_scalars(blinders);
        proof {
            assert(ids_of(blinder_handles@) =~= range_ids(first + 3 * n + 6, n as int));
        }
        let peer_blinders = self.exchange_ids(
            crate::fabric::result::collect_ids(blinder_handles.as_slice()),
            NetworkFunction::SendScalarBatch,
        );
        // Check the MAC checks
        let mut mac_check_gate_deps = crate::fabric::result::collect_ids(check_handles.as_slice());
        mac_check_gate_deps.push(peer_mac_checks);
        mac_check_gate_deps.push(peer_blinders);
        mac_check_gate_deps.push(peer_comms);
        proof {
            assert(mac_check_gate_deps@ =~= check_ids + seq![
                peer_mac_checks,
                peer_blinders,
                peer_comms,
            ]);
        }
        self.new_batch_gate_op::<Vec<u8>>(
            mac_check_gate_deps,
            n,
            BatchGateFunction::BatchVerifyMacCheck,
        );
        (first + 2, first + 4 * n + 8)
    }
}

} // verus!
