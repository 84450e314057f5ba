use mpc_stark::algebra::authenticated_scalar::AuthenticatedScalarResult;
use mpc_stark::algebra::authenticated_stark_point::modify_mac;
use mpc_stark::algebra::authenticated_stark_point::modify_public_modifier;
use mpc_stark::algebra::authenticated_stark_point::modify_share;
use mpc_stark::algebra::authenticated_stark_point::AuthenticatedStarkPointResult;
use mpc_stark::algebra::scalar::Scalar;
use mpc_stark::algebra::stark_curve::StarkPoint;
use mpc_stark::beaver::PartyIDBeaverSource;
use mpc_stark::beaver::SharedValueSource;
use mpc_stark::error::MpcError;
use mpc_stark::fabric::result::ResultHandle;
use mpc_stark::fabric::result::ResultValue;
use mpc_stark::fabric::MpcFabric;
use mpc_stark::PARTY0;
use mpc_stark::PARTY1;

type Fabric = MpcFabric<PartyIDBeaverSource>;

/// Two fabrics, one for each party, each with Beaver triples at hand
fn parties() -> (Fabric, Fabric) {
    let mut party0 = MpcFabric::new(PARTY0, PartyIDBeaverSource::new(PARTY0));
    let mut party1 = MpcFabric::new(PARTY1, PartyIDBeaverSource::new(PARTY1));
    party0.draw_triples(64);
    party1.draw_triples(64);
    (party0, party1)
}

/// Run both executors and carry the messages between the parties until
/// nothing is left to do
fn settle(party0: &mut Fabric, party1: &mut Fabric) {
    loop {
        party0.run_executor();
        party1.run_executor();
        let from0 = party0.drain_outbound();
        let from1 = party1.drain_outbound();
        if from0.is_empty() && from1.is_empty() {
            break;
        }
        for message in from0 {
            party1.receive_message(message.result_id, message.payload);
        }
        for message in from1 {
            party0.receive_message(message.result_id, message.payload);
        }
    }
}

fn scalar(value: u64) -> Scalar {
    Scalar::from_u64(value)
}

fn multiple_of_generator(value: u64) -> StarkPoint {
    StarkPoint::generator().mul(&scalar(value))
}

#[test]
fn add_public_constant() {
    let (mut p0, mut p1) = parties();
    let v0 = p0.share_scalar(scalar(7), PARTY0);
    let v1 = p1.share_scalar(scalar(0), PARTY0);
    let w0 = v0.add_scalar(&mut p0, scalar(5));
    let w1 = v1.add_scalar(&mut p1, scalar(5));
    let open0 = w0.open_authenticated(&mut p0);
    let open1 = w1.open_authenticated(&mut p1);
    assert_eq!(open0.resolve(&p0), None);
    settle(&mut p0, &mut p1);
    assert_eq!(open0.resolve(&p0), Some(Ok(scalar(12))));
    assert_eq!(open1.resolve(&p1), Some(Ok(scalar(12))));
}

#[test]
fn multiply_by_public_scalar() {
    let (mut p0, mut p1) = parties();
    let v0 = p0.share_scalar(scalar(3), PARTY0);
    let v1 = p1.share_scalar(scalar(3), PARTY0);
    let w0 = v0.mul_scalar(&mut p0, scalar(4));
    let w1 = v1.mul_scalar(&mut p1, scalar(4));
    let open0 = w0.open_authenticated(&mut p0);
    let open1 = w1.open_authenticated(&mut p1);
    settle(&mut p0, &mut p1);
    assert_eq!(open0.resolve(&p0), Some(Ok(scalar(12))));
    assert_eq!(open1.resolve(&p1), Some(Ok(scalar(12))));
}

#[test]
fn secret_multiplication() {
    let (mut p0, mut p1) = parties();
    let x0 = p0.share_scalar(scalar(6), PARTY0);
    let x1 = p1.share_scalar(scalar(0), PARTY0);
    let y0 = p0.share_scalar(scalar(0), PARTY1);
    let y1 = p1.share_scalar(scalar(7), PARTY1);
    let z0 = x0.mul(&mut p0, &y0);
    let z1 = x1.mul(&mut p1, &y1);
    let open0 = z0.open_authenticated(&mut p0);
    let open1 = z1.open_authenticated(&mut p1);
    settle(&mut p0, &mut p1);
    assert_eq!(open0.resolve(&p0), Some(Ok(scalar(42))));
    assert_eq!(open1.resolve(&p1), Some(Ok(scalar(42))));
}

#[test]
fn tampered_mac() {
    let (mut p0, mut p1) = parties();
    let mut v0 = p0.share_scalar(scalar(9), PARTY0);
    let v1 = p1.share_scalar(scalar(9), PARTY0);
    // Party 0 overwrites its share of the MAC with a random field element; the
    // other party allocates a value as well to keep the graphs in step
    let forged = p0.allocate_scalar(Scalar::random().add(&scalar(1)));
    p1.allocate_scalar(scalar(0));
    v0.mac.value = forged;
    let open0 = v0.open_authenticated(&mut p0);
    let open1 = v1.open_authenticated(&mut p1);
    settle(&mut p0, &mut p1);
    assert_eq!(open0.resolve(&p0), Some(Err(MpcError::AuthenticationError)));
    assert_eq!(open1.resolve(&p1), Some(Err(MpcError::AuthenticationError)));
}

#[test]
fn point_addition() {
    let (mut p0, mut p1) = parties();
    let a0 = p0.share_point(multiple_of_generator(2), PARTY0);
    let a1 = p1.share_point(StarkPoint::identity(), PARTY0);
    let b0 = p0.share_point(StarkPoint::identity(), PARTY1);
    let b1 = p1.share_point(multiple_of_generator(3), PARTY1);
    let sum0 = a0.add(&mut p0, &b0);
    let sum1 = a1.add(&mut p1, &b1);
    let open0 = sum0.open(&mut p0);
    let open1 = sum1.open(&mut p1);
    let checked0 = sum0.open_authenticated(&mut p0);
    let checked1 = sum1.open_authenticated(&mut p1);
    settle(&mut p0, &mut p1);
    let expected = multiple_of_generator(5);
    assert_eq!(p0.result(open0.id), Some(ResultValue::Point(expected)));
    assert_eq!(p1.result(open1.id), Some(ResultValue::Point(expected)));
    assert_eq!(checked0.poll(&p0), Some(Ok(expected)));
    assert_eq!(checked1.poll(&p1), Some(Ok(expected)));
}

#[test]
fn msm_of_two_points() {
    let (mut p0, mut p1) = parties();
    let s0 = vec![p0.share_scalar(scalar(2), PARTY0), p0.share_scalar(scalar(3), PARTY0)];
    let s1 = vec![p1.share_scalar(scalar(0), PARTY0), p1.share_scalar(scalar(0), PARTY0)];
    let g0 = vec![
        p0.share_point(StarkPoint::identity(), PARTY1),
        p0.share_point(StarkPoint::identity(), PARTY1),
    ];
    let g1 = vec![
        p1.share_point(multiple_of_generator(1), PARTY1),
        p1.share_point(multiple_of_generator(2), PARTY1),
    ];
    let r0 = AuthenticatedStarkPointResult::msm(&mut p0, &s0, &g0);
    let r1 = AuthenticatedStarkPointResult::msm(&mut p1, &s1, &g1);
    let open0 = r0.open_authenticated(&mut p0);
    let open1 = r1.open_authenticated(&mut p1);
    settle(&mut p0, &mut p1);
    let expected = multiple_of_generator(8);
    assert_eq!(open0.poll(&p0), Some(Ok(expected)));
    assert_eq!(open1.poll(&p1), Some(Ok(expected)));
}

/// Share a random point from party 0, as both parties see it
fn shared_random_point(
    p0: &mut Fabric,
    p1: &mut Fabric,
) -> (StarkPoint, AuthenticatedStarkPointResult, AuthenticatedStarkPointResult) {
    let value = mpc_stark::random_point();
    let v0 = p0.share_point(value, PARTY0);
    let v1 = p1.share_point(StarkPoint::identity(), PARTY0);
    (value, v0, v1)
}

#[test]
fn test_open_authenticated() {
    let (mut p0, mut p1) = parties();
    let (value, v0, v1) = shared_random_point(&mut p0, &mut p1);
    // Open the point first without authenticating
    let plain0 = v0.open(&mut p0);
    let plain1 = v1.open(&mut p1);
    let open0 = v0.open_authenticated(&mut p0);
    let open1 = v1.open_authenticated(&mut p1);
    settle(&mut p0, &mut p1);
    assert_eq!(p0.result(plain0.id), Some(ResultValue::Point(value)));
    assert_eq!(p1.result(plain1.id), Some(ResultValue::Point(value)));
    assert_eq!(open0.poll(&p0), Some(Ok(value)));
    assert_eq!(open1.poll(&p1), Some(Ok(value)));
}

#[test]
#[allow(non_snake_case)]
fn test_open_authenticated__bad_mac() {
    let (mut p0, mut p1) = parties();
    let (_, mut v0, mut v1) = shared_random_point(&mut p0, &mut p1);
    // Corrupt the MAC and attempt to open
    modify_mac(&mut p0, &mut v0, mpc_stark::random_point());
    modify_mac(&mut p1, &mut v1, mpc_stark::random_point());
    let open0 = v0.open_authenticated(&mut p0);
    let open1 = v1.open_authenticated(&mut p1);
    settle(&mut p0, &mut p1);
    assert_eq!(open0.poll(&p0), Some(Err(MpcError::AuthenticationError)));
    assert_eq!(open1.poll(&p1), Some(Err(MpcError::AuthenticationError)));
}

#[test]
#[allow(non_snake_case)]
fn test_open_authenticated__bad_share() {
    let (mut p0, mut p1) = parties();
    let (_, mut v0, mut v1) = shared_random_point(&mut p0, &mut p1);
    // Corrupt the share and attempt to open
    modify_share(&mut p0, &mut v0, mpc_stark::random_point());
    modify_share(&mut p1, &mut v1, mpc_stark::random_point());
    let open0 = v0.open_authenticated(&mut p0);
    let open1 = v1.open_authenticated(&mut p1);
    settle(&mut p0, &mut p1);
    assert_eq!(open0.poll(&p0), Some(Err(MpcError::AuthenticationError)));
    assert_eq!(open1.poll(&p1), Some(Err(MpcError::AuthenticationError)));
}

#[test]
#[allow(non_snake_case)]
fn test_open_authenticated__bad_public_modifier() {
    let (mut p0, mut p1) = parties();
    let (_, mut v0, mut v1) = shared_random_point(&mut p0, &mut p1);
    // Corrupt the public modifier and attempt to open
    modify_public_modifier(&mut p0, &mut v0, mpc_stark::random_point());
    modify_public_modifier(&mut p1, &mut v1, mpc_stark::random_point());
    let open0 = v0.open_authenticated(&mut p0);
    let open1 = v1.open_authenticated(&mut p1);
    settle(&mut p0, &mut p1);
    assert_eq!(open0.poll(&p0), Some(Err(MpcError::AuthenticationError)));
    assert_eq!(open1.poll(&p1), Some(Err(MpcError::AuthenticationError)));
}

/// Share the same random point from each party, as both parties see it
fn two_shared_points(
    p0: &mut Fabric,
    p1: &mut Fabric,
) -> (
    StarkPoint,
    StarkPoint,
    (AuthenticatedStarkPointResult, AuthenticatedStarkPointResult),
    (AuthenticatedStarkPointResult, AuthenticatedStarkPointResult),
) {
    let first = mpc_stark::random_point();
    let second = mpc_stark::random_point();
    let a0 = p0.share_point(first, PARTY0);
    let a1 = p1.share_point(StarkPoint::identity(), PARTY0);
    let b0 = p0.share_point(StarkPoint::identity(), PARTY1);
    let b1 = p1.share_point(second, PARTY1);
    (first, second, (a0, a1), (b0, b1))
}

#[test]
fn test_addition_public_point() {
    let (mut p0, mut p1) = parties();
    let (first, second, (a0, a1), _) = two_shared_points(&mut p0, &mut p1);
    // Add the points in the MPC circuit
    let r0 = a0.add_point(&mut p0, second);
    let r1 = a1.add_point(&mut p1, second);
    let open0 = r0.open_authenticated(&mut p0);
    let open1 = r1.open_authenticated(&mut p1);
    settle(&mut p0, &mut p1);
    assert_eq!(open0.poll(&p0), Some(Ok(first.add(&second))));
    assert_eq!(open1.poll(&p1), Some(Ok(first.add(&second))));
}

#[test]
fn test_add() {
    let (mut p0, mut p1) = parties();
    let (first, second, (a0, a1), (b0, b1)) = two_shared_points(&mut p0, &mut p1);
    let r0 = a0.add(&mut p0, &b0);
    let r1 = a1.add(&mut p1, &b1);
    let open0 = r0.open_authenticated(&mut p0);
    let open1 = r1.open_authenticated(&mut p1);
    settle(&mut p0, &mut p1);
    assert_eq!(open0.poll(&p0), Some(Ok(first.add(&second))));
    assert_eq!(open1.poll(&p1), Some(Ok(first.add(&second))));
}

#[test]
fn test_sub_public_point() {
    let (mut p0, mut p1) = parties();
    let (first, second, (a0, a1), _) = two_shared_points(&mut p0, &mut p1);
    let r0 = a0.sub_point(&mut p0, second);
    let r1 = a1.sub_point(&mut p1, second);
    let open0 = r0.open_authenticated(&mut p0);
    let open1 = r1.open_authenticated(&mut p1);
    settle(&mut p0, &mut p1);
    assert_eq!(open0.poll(&p0), Some(Ok(first.sub(&second))));
    assert_eq!(open1.poll(&p1), Some(Ok(first.sub(&second))));
}

#[test]
fn test_sub() {
    let (mut p0, mut p1) = parties();
    let (first, second, (a0, a1), (b0, b1)) = two_shared_points(&mut p0, &mut p1);
    let r0 = a0.sub(&mut p0, &b0);
    let r1 = a1.sub(&mut p1, &b1);
    let open0 = r0.open_authenticated(&mut p0);
    let open1 = r1.open_authenticated(&mut p1);
    settle(&mut p0, &mut p1);
    assert_eq!(open0.poll(&p0), Some(Ok(first.sub(&second))));
    assert_eq!(open1.poll(&p1), Some(Ok(first.sub(&second))));
}

#[test]
fn test_negation() {
    let (mut p0, mut p1) = parties();
    let (value, v0, v1) = shared_random_point(&mut p0, &mut p1);
    let r0 = v0.neg(&mut p0);
    let r1 = v1.neg(&mut p1);
    let open0 = r0.open_authenticated(&mut p0);
    let open1 = r1.open_authenticated(&mut p1);
    settle(&mut p0, &mut p1);
    assert_eq!(open0.poll(&p0), Some(Ok(value.neg())));
    assert_eq!(open1.poll(&p1), Some(Ok(value.neg())));
}

#[test]
fn test_multiplication_public_scalar() {
    let (mut p0, mut p1) = parties();
    let (value, v0, v1) = shared_random_point(&mut p0, &mut p1);
    let factor = Scalar::random();
    let r0 = v0.mul_scalar(&mut p0, factor);
    let r1 = v1.mul_scalar(&mut p1, factor);
    let open0 = r0.open_authenticated(&mut p0);
    let open1 = r1.open_authenticated(&mut p1);
    settle(&mut p0, &mut p1);
    assert_eq!(open0.poll(&p0), Some(Ok(value.mul(&factor))));
    assert_eq!(open1.poll(&p1), Some(Ok(value.mul(&factor))));
}

#[test]
fn test_multiplication() {
    let (mut p0, mut p1) = parties();
    let (value, v0, v1) = shared_random_point(&mut p0, &mut p1);
    let factor = Scalar::random();
    let s0 = p0.share_scalar(scalar(0), PARTY1);
    let s1 = p1.share_scalar(factor, PARTY1);
    let r0 = v0.mul(&mut p0, &s0);
    let r1 = v1.mul(&mut p1, &s1);
    let open0 = r0.open_authenticated(&mut p0);
    let open1 = r1.open_authenticated(&mut p1);
    settle(&mut p0, &mut p1);
    assert_eq!(open0.poll(&p0), Some(Ok(value.mul(&factor))));
    assert_eq!(open1.poll(&p1), Some(Ok(value.mul(&factor))));
}

#[test]
fn handles_report_their_ids() {
    let handle: ResultHandle<Scalar> = ResultHandle::new(17);
    assert_eq!(handle.id(), 17);
    assert_eq!(handle.op_ids(), vec![17]);
    let (p0, _) = parties();
    let one = p0.one_authenticated();
    // The share is zero, the MAC is the share of the MAC key, the modifier is zero
    assert_eq!(AuthenticatedScalarResult::ids(&one), vec![0, 3, 0]);
}

#[test]
fn msm_on_owned_lists() {
    let (mut p0, mut p1) = parties();
    let s0 = vec![p0.share_scalar(scalar(5), PARTY0)];
    let s1 = vec![p1.share_scalar(scalar(0), PARTY0)];
    let g0 = vec![p0.share_point(multiple_of_generator(7), PARTY0)];
    let g1 = vec![p1.share_point(StarkPoint::identity(), PARTY0)];
    assert_eq!(g0[0].mpc_share().id(), g0[0].id());
    let r0 = AuthenticatedStarkPointResult::msm_iter(&mut p0, s0, g0);
    let r1 = AuthenticatedStarkPointResult::msm_iter(&mut p1, s1, g1);
    assert_eq!(r0.ids(), r1.ids());
    let open0 = r0.open_authenticated(&mut p0);
    let open1 = r1.open_authenticated(&mut p1);
    settle(&mut p0, &mut p1);
    assert_eq!(open0.poll(&p0), Some(Ok(multiple_of_generator(35))));
    assert_eq!(open1.poll(&p1), Some(Ok(multiple_of_generator(35))));
}

#[test]
fn batches_are_exchanged_in_one_message() {
    let (mut p0, mut p1) = parties();
    let mine0 = p0.allocate_scalars(vec![scalar(1), scalar(2)]);
    let mine1 = p1.allocate_scalars(vec![scalar(3), scalar(4)]);
    let theirs0 = p0.exchange_values(&mine0);
    let theirs1 = p1.exchange_values(&mine1);
    p0.run_executor();
    p1.run_executor();
    assert_eq!(p0.drain_outbound().len(), 1);
    let from1 = p1.drain_outbound();
    assert_eq!(from1.len(), 1);
    for message in from1 {
        p0.receive_message(message.result_id, message.payload);
    }
    p0.run_executor();
    assert_eq!(
        p0.result(theirs0.id),
        Some(ResultValue::ScalarBatch(vec![scalar(3), scalar(4)]))
    );
    assert_eq!(p1.result(theirs1.id), None);
}

#[test]
fn shares_alone_do_not_give_the_value_away() {
    let (mut p0, mut p1) = parties();
    let v0 = p0.share_scalar_with_blinder(scalar(100), PARTY0, scalar(30));
    let v1 = p1.share_scalar_with_blinder(scalar(0), PARTY0, scalar(0));
    settle(&mut p0, &mut p1);
    // The sender keeps the value less the blinder, and the peer holds the blinder
    assert_eq!(p0.result(v0.id()), Some(ResultValue::Scalar(scalar(70))));
    assert_eq!(p1.result(v1.id()), Some(ResultValue::Scalar(scalar(30))));
    let g = StarkPoint::generator();
    let q0 = p0.share_point_with_blinder(g.mul(&scalar(9)), PARTY0, scalar(4));
    let q1 = p1.share_point_with_blinder(StarkPoint::identity(), PARTY0, scalar(0));
    settle(&mut p0, &mut p1);
    assert_eq!(p0.result(q0.id()), Some(ResultValue::Point(g.mul(&scalar(5)))));
    assert_eq!(p1.result(q1.id()), Some(ResultValue::Point(g.mul(&scalar(4)))));
    // With the key 1 of the source by party id, the MAC shares add up to the value
    let mac0 = p0.result(v0.mac.id());
    let mac1 = p1.result(v1.mac.id());
    match (mac0, mac1) {
        (Some(ResultValue::Scalar(m0)), Some(ResultValue::Scalar(m1))) => {
            assert_eq!(m0.add(&m1), scalar(100));
        },
        other => panic!("the MAC shares are not resident: {other:?}"),
    }
}

#[test]
fn a_party_that_is_ahead_of_its_peer_is_not_held_up() {
    let (mut p0, mut p1) = parties();
    // The first party declares its whole graph and sends what it can before
    // the other has declared anything
    let x0 = p0.share_scalar(scalar(6), PARTY0);
    let y0 = p0.share_scalar(scalar(0), PARTY1);
    let z0 = x0.mul(&mut p0, &y0);
    let open0 = z0.open_authenticated(&mut p0);
    p0.run_executor();
    for message in p0.drain_outbound() {
        p1.receive_message(message.result_id, message.payload);
    }
    p1.run_executor();
    assert_eq!(open0.resolve(&p0), None);
    // The other party catches up
    let x1 = p1.share_scalar(scalar(0), PARTY0);
    let y1 = p1.share_scalar(scalar(7), PARTY1);
    let z1 = x1.mul(&mut p1, &y1);
    let open1 = z1.open_authenticated(&mut p1);
    settle(&mut p0, &mut p1);
    assert_eq!(open0.resolve(&p0), Some(Ok(scalar(42))));
    assert_eq!(open1.resolve(&p1), Some(Ok(scalar(42))));
}

/// A source whose shares of the MAC key are not zero for either party
struct KeyedSource {
    party_id: u64,
}

impl SharedValueSource for KeyedSource {
    fn next_shared_bit(&mut self) -> Scalar {
        scalar(self.party_id)
    }

    fn next_shared_value(&mut self) -> Scalar {
        scalar(5 + 2 * self.party_id)
    }

    fn next_shared_inverse_pair(&mut self) -> (Scalar, Scalar) {
        (scalar(self.party_id), scalar(self.party_id))
    }

    fn next_triplet(&mut self) -> (Scalar, Scalar, Scalar) {
        PartyIDBeaverSource::new(self.party_id).share_of_triplet()
    }
}

fn keyed_parties() -> (MpcFabric<KeyedSource>, MpcFabric<KeyedSource>) {
    let mut party0 = MpcFabric::new(PARTY0, KeyedSource { party_id: PARTY0 });
    let mut party1 = MpcFabric::new(PARTY1, KeyedSource { party_id: PARTY1 });
    party0.draw_triples(64);
    party1.draw_triples(64);
    (party0, party1)
}

fn settle_keyed(party0: &mut MpcFabric<KeyedSource>, party1: &mut MpcFabric<KeyedSource>) {
    loop {
        party0.run_executor();
        party1.run_executor();
        let from0 = party0.drain_outbound();
        let from1 = party1.drain_outbound();
        if from0.is_empty() && from1.is_empty() {
            break;
        }
        for message in from0 {
            party1.receive_message(message.result_id, message.payload);
        }
        for message in from1 {
            party0.receive_message(message.result_id, message.payload);
        }
    }
}

#[test]
fn the_authenticated_one_is_authentic_under_any_key() {
    let (mut p0, mut p1) = keyed_parties();
    let one0 = p0.one_authenticated();
    let one1 = p1.one_authenticated();
    let ones0 = p0.ones_authenticated(2);
    let ones1 = p1.ones_authenticated(2);
    let sum0 = one0.add(&mut p0, &ones0[1]);
    let sum1 = one1.add(&mut p1, &ones1[1]);
    let open0 = sum0.open_authenticated(&mut p0);
    let open1 = sum1.open_authenticated(&mut p1);
    settle_keyed(&mut p0, &mut p1);
    assert_eq!(open0.resolve(&p0), Some(Ok(scalar(2))));
    assert_eq!(open1.resolve(&p1), Some(Ok(scalar(2))));
}

#[test]
fn a_difference_of_points_subtracts_the_public_modifiers() {
    let (mut p0, mut p1) = keyed_parties();
    let a0 = p0.share_point(multiple_of_generator(9), PARTY0);
    let a1 = p1.share_point(StarkPoint::identity(), PARTY0);
    let b0 = p0.share_point(StarkPoint::identity(), PARTY1);
    let b1 = p1.share_point(multiple_of_generator(2), PARTY1);
    let b0 = b0.add_point(&mut p0, multiple_of_generator(3));
    let b1 = b1.add_point(&mut p1, multiple_of_generator(3));
    let d0 = a0.sub(&mut p0, &b0);
    let d1 = a1.sub(&mut p1, &b1);
    let open0 = d0.open_authenticated(&mut p0);
    let open1 = d1.open_authenticated(&mut p1);
    settle_keyed(&mut p0, &mut p1);
    assert_eq!(open0.poll(&p0), Some(Ok(multiple_of_generator(4))));
    assert_eq!(open1.poll(&p1), Some(Ok(multiple_of_generator(4))));
}

#[test]
fn a_difference_of_scalars_subtracts_the_public_modifiers() {
    let (mut p0, mut p1) = keyed_parties();
    let a0 = p0.share_scalar(scalar(9), PARTY0);
    let a1 = p1.share_scalar(scalar(0), PARTY0);
    let b0 = p0.share_scalar(scalar(0), PARTY1);
    let b1 = p1.share_scalar(scalar(2), PARTY1);
    let b0 = b0.add_scalar(&mut p0, scalar(3));
    let b1 = b1.add_scalar(&mut p1, scalar(3));
    let d0 = a0.sub(&mut p0, &b0);
    let d1 = a1.sub(&mut p1, &b1);
    let open0 = d0.open_authenticated(&mut p0);
    let open1 = d1.open_authenticated(&mut p1);
    settle_keyed(&mut p0, &mut p1);
    assert_eq!(open0.resolve(&p0), Some(Ok(scalar(4))));
    assert_eq!(open1.resolve(&p1), Some(Ok(scalar(4))));
}

/// A source that counts the requests for Beaver triples
struct CountingSource {
    party_id: u64,
    single: std::sync::Arc<std::sync::atomic::AtomicUsize>,
    batches: std::sync::Arc<std::sync::atomic::AtomicUsize>,
    triples: std::sync::Arc<std::sync::atomic::AtomicUsize>,
}

impl SharedValueSource for CountingSource {
    fn next_shared_bit(&mut self) -> Scalar {
        scalar(self.party_id)
    }

    fn next_shared_value(&mut self) -> Scalar {
        scalar(self.party_id)
    }

    fn next_shared_inverse_pair(&mut self) -> (Scalar, Scalar) {
        (scalar(self.party_id), scalar(self.party_id))
    }

    fn next_triplet(&mut self) -> (Scalar, Scalar, Scalar) {
        self.single.fetch_add(1, std::sync::atomic::Ordering::SeqCst);
        PartyIDBeaverSource::new(self.party_id).share_of_triplet()
    }

    fn next_triplet_batch(&mut self, n: usize) -> (Vec<Scalar>, Vec<Scalar>, Vec<Scalar>) {
        self.batches.fetch_add(1, std::sync::atomic::Ordering::SeqCst);
        self.triples.fetch_add(n, std::sync::atomic::Ordering::SeqCst);
        let (a, b, c) = PartyIDBeaverSource::new(self.party_id).share_of_triplet();
        (vec![a; n], vec![b; n], vec![c; n])
    }
}

#[test]
fn a_batch_multiplication_draws_its_triples_from_the_source_in_one_request() {
    let counters: Vec<_> = (0..6)
        .map(|_| std::sync::Arc::new(std::sync::atomic::AtomicUsize::new(0)))
        .collect();
    let source = |party_id: u64, at: usize| CountingSource {
        party_id,
        single: counters[at].clone(),
        batches: counters[at + 1].clone(),
        triples: counters[at + 2].clone(),
    };
    let mut p0 = MpcFabric::new(PARTY0, source(PARTY0, 0));
    let mut p1 = MpcFabric::new(PARTY1, source(PARTY1, 3));
    // Nothing is drawn beforehand; the points are allocated as preshared values
    let g = StarkPoint::generator();
    let s0 = vec![p0.zero_authenticated(), p0.one_authenticated()];
    let s1 = vec![p1.zero_authenticated(), p1.one_authenticated()];
    let q0 = vec![p0.curve_identity_authenticated(), p0.curve_identity_authenticated()];
    let q1 = vec![p1.curve_identity_authenticated(), p1.curve_identity_authenticated()];
    let q0: Vec<_> = q0.iter().map(|q| q.add_point(&mut p0, g)).collect();
    let q1: Vec<_> = q1.iter().map(|q| q.add_point(&mut p1, g)).collect();
    assert_eq!(counters[1].load(std::sync::atomic::Ordering::SeqCst), 0);
    let r0 = AuthenticatedStarkPointResult::batch_mul(&mut p0, &s0, &q0);
    let r1 = AuthenticatedStarkPointResult::batch_mul(&mut p1, &s1, &q1);
    // One request for all the triples of the two products, and none beside it
    assert_eq!(counters[0].load(std::sync::atomic::Ordering::SeqCst), 0);
    assert_eq!(counters[1].load(std::sync::atomic::Ordering::SeqCst), 1);
    assert_eq!(counters[2].load(std::sync::atomic::Ordering::SeqCst), 8);
    assert_eq!(p0.available_triples(), 0);
    // An empty batch draws nothing
    let none = AuthenticatedStarkPointResult::batch_mul(&mut p0, &[], &[]);
    assert!(none.is_empty());
    assert_eq!(counters[1].load(std::sync::atomic::Ordering::SeqCst), 1);
    let open0 = AuthenticatedStarkPointResult::open_authenticated_batch(&mut p0, &r0);
    let open1 = AuthenticatedStarkPointResult::open_authenticated_batch(&mut p1, &r1);
    loop {
        p0.run_executor();
        p1.run_executor();
        let from0 = p0.drain_outbound();
        let from1 = p1.drain_outbound();
        if from0.is_empty() && from1.is_empty() {
            break;
        }
        for message in from0 {
            p1.receive_message(message.result_id, message.payload);
        }
        for message in from1 {
            p0.receive_message(message.result_id, message.payload);
        }
    }
    assert_eq!(open0[0].poll(&p0), Some(Ok(StarkPoint::identity())));
    assert_eq!(open0[1].poll(&p0), Some(Ok(g)));
    assert_eq!(open1[1].poll(&p1), Some(Ok(g)));
}
