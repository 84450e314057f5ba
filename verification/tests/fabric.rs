use mpc_stark::algebra::authenticated_scalar::AuthenticatedScalarResult;
use mpc_stark::algebra::authenticated_stark_point::AuthenticatedStarkPointResult;
use mpc_stark::algebra::mpc_scalar::MpcScalarResult;
use mpc_stark::algebra::scalar::Scalar;
use mpc_stark::algebra::scalar::ScalarResult;
use mpc_stark::algebra::stark_curve::StarkPoint;
use mpc_stark::algebra::stark_curve::StarkPointResult;
use mpc_stark::beaver::PartyIDBeaverSource;
use mpc_stark::beaver::SharedValueSource;
use mpc_stark::buffer::GrowableBuffer;
use mpc_stark::commitment::hash_commit;
use mpc_stark::commitment::HashCommitment;
use mpc_stark::commitment::ScalarHashCommitment;
use mpc_stark::error::MpcError;
use mpc_stark::fabric::gate::BatchGateFunction;
use mpc_stark::fabric::gate::Constant;
use mpc_stark::fabric::gate::GateFunction;
use mpc_stark::fabric::gate::NetworkFunction;
use mpc_stark::fabric::result::ResultHandle;
use mpc_stark::fabric::result::ResultValue;
use mpc_stark::fabric::MpcFabric;
use mpc_stark::fabric::Operation;
use mpc_stark::fabric::OperationType;
use mpc_stark::fabric::RESULT_IDENTITY;
use mpc_stark::fabric::RESULT_MAC_KEY;
use mpc_stark::fabric::RESULT_ONE;
use mpc_stark::fabric::RESULT_ZERO;
use mpc_stark::network::decode_message;
use mpc_stark::network::encode_message;
use mpc_stark::network::NetworkOutbound;
use mpc_stark::network::NetworkPayload;
use mpc_stark::PARTY0;
use mpc_stark::PARTY1;

type Fabric = MpcFabric<PartyIDBeaverSource>;

fn party(id: u64) -> Fabric {
    let mut fabric = MpcFabric::new(id, PartyIDBeaverSource::new(id));
    fabric.draw_triples(64);
    fabric
}

fn settle(party0: &mut Fabric, party1: &mut Fabric) {
    loop {
        party0.run_executor();
        party1.run_executor();
        let from0 = party0.drain_outbound();
        let from1 = party1.drain_outbound();
        if from0.is_empty() && from1.is_empty() {
            break;
        }
        for message in from0 {
            party1.receive_message(message.result_id, message.payload);
        }
        for message in from1 {
            party0.receive_message(message.result_id, message.payload);
        }
    }
}

fn scalar(value: u64) -> Scalar {
    Scalar::from_u64(value)
}

fn scalar_at(fabric: &Fabric, id: usize) -> Option<Scalar> {
    match fabric.result(id) {
        Some(ResultValue::Scalar(value)) => Some(value),
        Some(other) => panic!("result {id} is {other:?}"),
        None => None,
    }
}

fn point_at(fabric: &Fabric, id: usize) -> Option<StarkPoint> {
    match fabric.result(id) {
        Some(ResultValue::Point(value)) => Some(value),
        Some(other) => panic!("result {id} is {other:?}"),
        None => None,
    }
}

#[test]
fn constants_are_resident_from_the_start() {
    let fabric = party(PARTY0);
    assert_eq!(scalar_at(&fabric, RESULT_ZERO), Some(Scalar::zero()));
    assert_eq!(scalar_at(&fabric, RESULT_ONE), Some(Scalar::one()));
    assert_eq!(point_at(&fabric, RESULT_IDENTITY), Some(StarkPoint::identity()));
    assert_eq!(fabric.zero().id, 0);
    assert_eq!(fabric.one().id, 1);
    assert_eq!(fabric.curve_identity().id, 2);
    // The share of the MAC key is the first value drawn from the source
    assert_eq!(scalar_at(&fabric, RESULT_MAC_KEY), Some(scalar(0)));
    assert_eq!(scalar_at(&party(PARTY1), RESULT_MAC_KEY), Some(scalar(1)));
    assert_eq!(fabric.next_result_id(), 4);
    assert_eq!(fabric.party_id(), PARTY0);
}

#[test]
fn gates_are_evaluated_once_the_executor_runs() {
    let mut fabric = party(PARTY0);
    let a = fabric.allocate_scalar(scalar(20));
    let b = fabric.allocate_scalar(scalar(22));
    let sum = a.add(&mut fabric, &b);
    let product = sum.mul(&mut fabric, &a);
    let negated = product.neg(&mut fabric);
    assert_eq!((a.id, b.id, sum.id, product.id, negated.id), (4, 5, 6, 7, 8));
    // Declaring a gate does not evaluate it
    assert_eq!(fabric.result(sum.id), None);
    fabric.run_executor();
    assert_eq!(scalar_at(&fabric, sum.id), Some(scalar(42)));
    assert_eq!(scalar_at(&fabric, product.id), Some(scalar(840)));
    assert_eq!(scalar_at(&fabric, negated.id), Some(scalar(840).neg()));
}

#[test]
fn a_gate_waits_for_the_value_from_the_peer() {
    let mut fabric = party(PARTY1);
    let local = fabric.allocate_scalar(scalar(5));
    let remote: ScalarResult = fabric.receive_value();
    let sum = local.add(&mut fabric, &remote);
    let doubled = sum.add(&mut fabric, &sum);
    fabric.run_executor();
    assert_eq!(fabric.result(sum.id), None);
    assert_eq!(fabric.result(doubled.id), None);
    fabric.receive_message(remote.id, NetworkPayload::Scalar(scalar(8)));
    fabric.run_executor();
    assert_eq!(scalar_at(&fabric, remote.id), Some(scalar(8)));
    assert_eq!(scalar_at(&fabric, sum.id), Some(scalar(13)));
    assert_eq!(scalar_at(&fabric, doubled.id), Some(scalar(26)));
}

#[test]
fn results_are_never_overwritten() {
    let mut fabric = party(PARTY1);
    let local = fabric.allocate_scalar(scalar(5));
    let remote: ScalarResult = fabric.receive_value();
    let sum = local.add(&mut fabric, &remote);
    fabric.receive_message(remote.id, NetworkPayload::Scalar(scalar(8)));
    // A second message for the same result, one for a value that was allocated
    // locally, one for the result of a gate and one for a result that does not
    // exist are all dropped
    fabric.receive_message(remote.id, NetworkPayload::Scalar(scalar(9)));
    fabric.receive_message(local.id, NetworkPayload::Scalar(scalar(9)));
    fabric.receive_message(sum.id, NetworkPayload::Scalar(scalar(9)));
    fabric.receive_message(1000, NetworkPayload::Scalar(scalar(9)));
    fabric.receive_message(RESULT_ZERO, NetworkPayload::Scalar(scalar(9)));
    fabric.run_executor();
    assert_eq!(scalar_at(&fabric, remote.id), Some(scalar(8)));
    assert_eq!(scalar_at(&fabric, local.id), Some(scalar(5)));
    assert_eq!(scalar_at(&fabric, sum.id), Some(scalar(13)));
    assert_eq!(scalar_at(&fabric, RESULT_ZERO), Some(scalar(0)));
    assert_eq!(fabric.result(1000), None);
}

#[test]
fn a_gate_on_values_of_the_wrong_kind_has_no_result() {
    let mut fabric = party(PARTY0);
    let a = fabric.allocate_scalar(scalar(1));
    let p = fabric.allocate_point(StarkPoint::generator());
    let mismatched: ScalarResult = fabric.new_gate_op(vec![a.id, p.id], GateFunction::Add);
    let too_few: ScalarResult = fabric.new_gate_op(vec![a.id], GateFunction::Add);
    let fine: StarkPointResult = fabric.new_gate_op(vec![a.id, p.id], GateFunction::Mul);
    assert!(fabric.failed_operations().is_empty());
    fabric.run_executor();
    assert_eq!(fabric.result(mismatched.id), None);
    assert_eq!(fabric.result(too_few.id), None);
    assert_eq!(point_at(&fabric, fine.id), Some(StarkPoint::generator()));
    // The two failures are on record, by the ids of their operations
    assert_eq!(fabric.failed_operations(), vec![0, 1]);
}

#[test]
fn gate_functions_compute_what_they_say() {
    let g = StarkPoint::generator();
    let two = ResultValue::Scalar(scalar(2));
    let three = ResultValue::Scalar(scalar(3));
    let point = ResultValue::Point(g);
    assert_eq!(
        GateFunction::Sub.eval(&vec![two.clone(), three.clone()]),
        Some(ResultValue::Scalar(scalar(1).neg()))
    );
    assert_eq!(
        GateFunction::AddConstant(Constant::Scalar(scalar(40))).eval(&vec![two.clone()]),
        Some(ResultValue::Scalar(scalar(42)))
    );
    assert_eq!(
        GateFunction::SubConstant(Constant::Point(g)).eval(&vec![point.clone()]),
        Some(ResultValue::Point(StarkPoint::identity()))
    );
    assert_eq!(
        GateFunction::MulConstant(Constant::Point(g)).eval(&vec![three.clone()]),
        Some(ResultValue::Point(g.mul(&scalar(3))))
    );
    assert_eq!(
        GateFunction::MulConstant(Constant::Scalar(scalar(3))).eval(&vec![point.clone()]),
        Some(ResultValue::Point(g.mul(&scalar(3))))
    );
    assert_eq!(GateFunction::Pass.eval(&vec![point.clone()]), Some(point.clone()));
    assert_eq!(GateFunction::Pass.eval(&vec![ResultValue::Bytes(vec![1])]), None);
    assert_eq!(
        GateFunction::AddPublic { party_id: PARTY0 }.eval(&vec![two.clone(), three.clone()]),
        Some(ResultValue::Scalar(scalar(5)))
    );
    assert_eq!(
        GateFunction::AddPublic { party_id: PARTY1 }.eval(&vec![two.clone(), three.clone()]),
        Some(two.clone())
    );
    assert_eq!(
        GateFunction::SubPublic { party_id: PARTY0 }.eval(&vec![three.clone(), two.clone()]),
        Some(ResultValue::Scalar(scalar(1)))
    );
    // key * (value + modifier) - mac
    let key = ResultValue::Scalar(scalar(5));
    let value = ResultValue::Scalar(scalar(7));
    let modifier = ResultValue::Scalar(scalar(4));
    let mac = ResultValue::Scalar(scalar(50));
    assert_eq!(
        GateFunction::MacCheck.eval(&vec![key, value, modifier, mac]),
        Some(ResultValue::Scalar(scalar(5)))
    );
}

#[test]
fn batch_gate_functions_compute_what_they_say() {
    let values: Vec<ResultValue> = (1..=6).map(|v| ResultValue::Scalar(scalar(v))).collect();
    let scalars = |v: &[u64]| -> Option<Vec<ResultValue>> {
        Some(v.iter().map(|x| ResultValue::Scalar(scalar(*x))).collect())
    };
    assert_eq!(BatchGateFunction::BatchAdd.eval(&values, 3), scalars(&[5, 7, 9]));
    assert_eq!(BatchGateFunction::BatchMul.eval(&values, 3), scalars(&[4, 10, 18]));
    assert_eq!(BatchGateFunction::BatchAdd.eval(&values, 2), None);
    assert_eq!(
        BatchGateFunction::Split.eval(&vec![ResultValue::ScalarBatch(vec![scalar(8), scalar(9)])], 2),
        scalars(&[8, 9])
    );
    assert_eq!(
        BatchGateFunction::Split.eval(&vec![ResultValue::ScalarBatch(vec![scalar(8), scalar(9)])], 3),
        None
    );
    // One authenticated value (1, 2, 3) plus the public value 4
    let with_public: Vec<ResultValue> = (1..=4).map(|v| ResultValue::Scalar(scalar(v))).collect();
    assert_eq!(
        BatchGateFunction::BatchAddPublic { party_id: PARTY0 }.eval(&with_public, 3),
        Some(vec![
            ResultValue::Scalar(scalar(5)),
            ResultValue::Scalar(scalar(2)),
            ResultValue::Scalar(scalar(1).neg()),
        ])
    );
    assert_eq!(
        BatchGateFunction::BatchAddPublic { party_id: PARTY1 }.eval(&with_public, 3),
        Some(vec![
            ResultValue::Scalar(scalar(1)),
            ResultValue::Scalar(scalar(2)),
            ResultValue::Scalar(scalar(1).neg()),
        ])
    );
    assert_eq!(
        BatchGateFunction::BatchSubPublic { party_id: PARTY0 }.eval(&with_public, 3),
        Some(vec![
            ResultValue::Scalar(scalar(3).neg()),
            ResultValue::Scalar(scalar(2)),
            ResultValue::Scalar(scalar(7)),
        ])
    );
    // The public scalar 4 times the authenticated value (1, 2, 3)
    let public_first = vec![
        ResultValue::Scalar(scalar(4)),
        ResultValue::Scalar(scalar(1)),
        ResultValue::Scalar(scalar(2)),
        ResultValue::Scalar(scalar(3)),
    ];
    assert_eq!(BatchGateFunction::BatchMulPublic.eval(&public_first, 3), scalars(&[4, 8, 12]));
    assert_eq!(BatchGateFunction::BatchMulAuthenticated.eval(&with_public, 3), scalars(&[4, 8, 12]));
    // The sum of the triples (G, 2G, 3G) and (4G, 5G, 6G)
    let g = StarkPoint::generator();
    let points: Vec<ResultValue> =
        (1..=6).map(|v| ResultValue::Point(g.mul(&scalar(v)))).collect();
    assert_eq!(
        BatchGateFunction::SumTriples.eval(&points, 3),
        Some(vec![
            ResultValue::Point(g.mul(&scalar(5))),
            ResultValue::Point(g.mul(&scalar(7))),
            ResultValue::Point(g.mul(&scalar(9))),
        ])
    );
    assert_eq!(
        BatchGateFunction::BatchNeg.eval(&vec![ResultValue::Point(g)], 1),
        Some(vec![ResultValue::Point(g.neg())])
    );
    assert_eq!(
        BatchGateFunction::BatchMulGenerator.eval(&vec![ResultValue::Scalar(scalar(3))], 1),
        Some(vec![ResultValue::Point(g.mul(&scalar(3)))])
    );
}

#[test]
fn network_functions_derive_their_payloads() {
    let two = ResultValue::Scalar(scalar(2));
    let three = ResultValue::Scalar(scalar(3));
    let point = ResultValue::Point(StarkPoint::generator());
    assert_eq!(
        NetworkFunction::SendArgument.eval(&vec![two.clone()]),
        Some(NetworkPayload::Scalar(scalar(2)))
    );
    assert_eq!(NetworkFunction::SendArgument.eval(&vec![two.clone(), three.clone()]), None);
    assert_eq!(
        NetworkFunction::SendScalarBatch.eval(&vec![two.clone(), three.clone()]),
        Some(NetworkPayload::ScalarBatch(vec![scalar(2), scalar(3)]))
    );
    assert_eq!(NetworkFunction::SendScalarBatch.eval(&vec![two.clone(), point.clone()]), None);
    assert_eq!(
        NetworkFunction::SendPointBatch.eval(&vec![point.clone()]),
        Some(NetworkPayload::PointBatch(vec![StarkPoint::generator()]))
    );
}

#[test]
fn network_operations_send_in_the_order_of_their_dispatch() {
    let mut fabric = party(PARTY0);
    let a = fabric.allocate_scalar(scalar(1));
    let late: ScalarResult = fabric.receive_value();
    let b = fabric.allocate_scalar(scalar(2));
    let first = fabric.send_value(&late);
    let second = fabric.send_value(&a);
    let third = fabric.send_value(&b);
    fabric.run_executor();
    let sent = fabric.drain_outbound();
    assert_eq!(
        sent,
        vec![
            NetworkOutbound { result_id: second.id, payload: NetworkPayload::Scalar(scalar(1)) },
            NetworkOutbound { result_id: third.id, payload: NetworkPayload::Scalar(scalar(2)) },
        ]
    );
    // What a network operation sends does not become its own result
    assert_eq!(fabric.result(second.id), None);
    fabric.receive_message(late.id, NetworkPayload::Scalar(scalar(3)));
    fabric.run_executor();
    assert_eq!(
        fabric.drain_outbound(),
        vec![NetworkOutbound { result_id: first.id, payload: NetworkPayload::Scalar(scalar(3)) }]
    );
    assert!(fabric.drain_outbound().is_empty());
}

#[test]
fn exchange_alternates_by_party() {
    let mut p0 = party(PARTY0);
    let mut p1 = party(PARTY1);
    let mine0 = p0.allocate_scalar(scalar(10));
    let mine1 = p1.allocate_scalar(scalar(11));
    let theirs0 = p0.exchange_value(&mine0);
    let theirs1 = p1.exchange_value(&mine1);
    // Party 0 sends and then receives; party 1 receives and then sends
    assert_eq!(theirs0.id, mine0.id + 2);
    assert_eq!(theirs1.id, mine1.id + 1);
    assert_eq!(p0.next_result_id(), p1.next_result_id());
    settle(&mut p0, &mut p1);
    assert_eq!(scalar_at(&p0, theirs0.id), Some(scalar(11)));
    assert_eq!(scalar_at(&p1, theirs1.id), Some(scalar(10)));
}

#[test]
fn plaintext_is_shared_with_the_peer() {
    let mut p0 = party(PARTY0);
    let mut p1 = party(PARTY1);
    let value = ResultValue::Bytes(vec![1, 2, 3]);
    let h0: ResultHandle<Vec<u8>> = p0.share_plaintext(value.clone(), PARTY0);
    let h1: ResultHandle<Vec<u8>> = p1.share_plaintext(ResultValue::Bytes(vec![]), PARTY0);
    assert_eq!(h0.id, h1.id);
    settle(&mut p0, &mut p1);
    assert_eq!(p0.result(h0.id), Some(value.clone()));
    assert_eq!(p1.result(h1.id), Some(value));
    let batch = ResultValue::ScalarBatch(vec![scalar(4), scalar(5)]);
    let b0: ResultHandle<Vec<Scalar>> = p0.batch_share_plaintext(batch.clone(), PARTY1);
    let b1: ResultHandle<Vec<Scalar>> = p1.batch_share_plaintext(batch.clone(), PARTY1);
    settle(&mut p0, &mut p1);
    assert_eq!(p0.result(b0.id), Some(batch.clone()));
    assert_eq!(p1.result(b1.id), Some(batch));
}

#[test]
fn waiting_consumers_are_woken_when_the_result_arrives() {
    let mut fabric = party(PARTY1);
    let remote: ScalarResult = fabric.receive_value();
    let resident = fabric.allocate_scalar(scalar(3));
    assert_eq!(fabric.poll(resident.id, 1), Some(ResultValue::Scalar(scalar(3))));
    assert_eq!(fabric.poll(remote.id, 7), None);
    assert_eq!(fabric.poll(remote.id, 8), None);
    fabric.run_executor();
    assert!(fabric.drain_woken().is_empty());
    fabric.receive_message(remote.id, NetworkPayload::Scalar(scalar(1)));
    fabric.run_executor();
    assert_eq!(fabric.drain_woken(), vec![7, 8]);
    assert!(fabric.drain_woken().is_empty());
    assert_eq!(fabric.poll(remote.id, 9), Some(ResultValue::Scalar(scalar(1))));
}

#[test]
fn the_executor_stops_at_shutdown() {
    let mut fabric = party(PARTY0);
    let a = fabric.allocate_scalar(scalar(1));
    let before = a.add(&mut fabric, &a);
    fabric.shutdown();
    let after = a.add(&mut fabric, &a);
    fabric.run_executor();
    assert_eq!(scalar_at(&fabric, before.id), Some(scalar(2)));
    assert_eq!(fabric.result(after.id), None);
    assert!(!fabric.step_executor());
}

#[test]
fn the_executor_handles_one_message_at_a_step() {
    let mut fabric = party(PARTY0);
    let a = fabric.allocate_scalar(scalar(1));
    let first = a.add(&mut fabric, &a);
    let second = first.add(&mut fabric, &a);
    assert!(fabric.step_executor());
    assert_eq!(scalar_at(&fabric, first.id), Some(scalar(2)));
    assert_eq!(fabric.result(second.id), None);
    assert!(fabric.step_executor());
    assert_eq!(scalar_at(&fabric, second.id), Some(scalar(3)));
    assert!(!fabric.step_executor());
}

#[test]
fn an_operation_counts_its_results_from_its_first() {
    let op = Operation {
        id: 3,
        result_id: 10,
        output_arity: 4,
        inflight_args: 0,
        args: vec![1, 2],
        op_type: OperationType::GateBatch { function: BatchGateFunction::BatchAdd },
    };
    assert_eq!(op.result_ids(), vec![10, 11, 12, 13]);
    let mut fabric = party(PARTY0);
    let a = fabric.allocate_scalar(scalar(1));
    let b = fabric.allocate_scalar(scalar(2));
    let handles: Vec<ScalarResult> =
        fabric.new_batch_gate_op(vec![a.id, b.id, b.id, a.id], 2, BatchGateFunction::BatchMul);
    assert_eq!(handles.iter().map(|h| h.id).collect::<Vec<_>>(), vec![6, 7]);
    fabric.run_executor();
    assert_eq!(scalar_at(&fabric, 6), Some(scalar(2)));
    assert_eq!(scalar_at(&fabric, 7), Some(scalar(2)));
}

#[test]
fn the_buffer_grows_to_fit() {
    let mut buffer: GrowableBuffer<u64> = GrowableBuffer::new(2);
    assert_eq!(buffer.get(0), None);
    assert_eq!(buffer.insert(5, 50), None);
    assert_eq!(buffer.insert(0, 1), None);
    assert_eq!(buffer.insert(5, 51), Some(50));
    assert_eq!(buffer.get(5), Some(&51));
    assert_eq!(buffer.get(4), None);
    assert_eq!(buffer.get(1000), None);
    assert!(buffer.contains(0));
    assert!(!buffer.contains(3));
    assert_eq!(buffer.take(5), Some(51));
    assert_eq!(buffer.take(5), None);
    assert_eq!(buffer.take(1000), None);
    assert_eq!(buffer.get(0), Some(&1));
}

#[test]
fn commitments_open_with_their_blinder_only() {
    // SHA3-256 of the encodings of 5 and 7, reduced modulo the order of the field
    let expected: [u8; 32] = [
        2, 39, 213, 157, 0, 22, 117, 134, 122, 25, 194, 195, 74, 163, 222, 173, 177, 230, 226,
        66, 74, 97, 249, 51, 228, 237, 112, 20, 168, 96, 16, 234,
    ];
    let commitment = hash_commit(scalar(5).to_bytes_be(), &scalar(7));
    assert_eq!(commitment.to_bytes_be(), expected.to_vec());
    let committed = ScalarHashCommitment::commit(scalar(5), scalar(7));
    assert_eq!(committed.commitment, commitment);
    assert!(committed.verify());
    assert!(!ScalarHashCommitment { blinder: scalar(8), ..committed }.verify());
    assert!(!ScalarHashCommitment { value: scalar(6), ..committed }.verify());
    let point = HashCommitment::commit(StarkPoint::generator(), scalar(9));
    assert!(point.verify());
    assert!(!HashCommitment { value: StarkPoint::identity(), ..point }.verify());
    assert!(!HashCommitment { commitment: scalar(1), ..point }.verify());
}

#[test]
fn verify_mac_check_wants_both_the_opening_and_the_sum() {
    let g = StarkPoint::generator();
    let peer = g.neg();
    let blinder = scalar(11);
    let commitment = HashCommitment::commit(peer, blinder).commitment;
    assert!(AuthenticatedStarkPointResult::verify_mac_check(g, peer, commitment, blinder));
    // The shares do not cancel
    let other = HashCommitment::commit(g, blinder).commitment;
    assert!(!AuthenticatedStarkPointResult::verify_mac_check(g, g, other, blinder));
    // The commitment is not opened
    assert!(!AuthenticatedStarkPointResult::verify_mac_check(g, peer, commitment, scalar(12)));
    assert!(!AuthenticatedStarkPointResult::verify_mac_check(g, peer, scalar(0), blinder));
}

#[test]
fn the_source_by_party_id_shares_the_triple_two_three_six() {
    let mut s0 = PartyIDBeaverSource::new(PARTY0);
    let mut s1 = PartyIDBeaverSource::new(PARTY1);
    let (a0, b0, c0) = s0.next_triplet();
    let (a1, b1, c1) = s1.next_triplet();
    let (a, b, c) = (a0.add(&a1), b0.add(&b1), c0.add(&c1));
    assert_eq!((a, b, c), (scalar(2), scalar(3), scalar(6)));
    assert_eq!(a.mul(&b), c);
    assert_eq!(s0.next_shared_value().add(&s1.next_shared_value()), scalar(1));
    assert_eq!(s0.next_shared_bit().add(&s1.next_shared_bit()), scalar(1));
    let (l0, r0) = s0.next_shared_inverse_pair();
    let (l1, r1) = s1.next_shared_inverse_pair();
    assert_eq!(l0.add(&l1).mul(&r0.add(&r1)), scalar(1));
    assert_eq!(s1.next_shared_value_batch(3), vec![scalar(1); 3]);
    assert_eq!(s1.next_shared_bit_batch(2).len(), 2);
    let (a, b, c) = s0.next_triplet_batch(4);
    assert_eq!((a.len(), b.len(), c.len()), (4, 4, 4));
    let (l, r) = s0.next_shared_inverse_pair_batch(5);
    assert_eq!((l.len(), r.len()), (5, 5));
}

#[test]
fn triples_are_drawn_ahead_and_used_in_order() {
    let mut fabric = MpcFabric::new(PARTY0, PartyIDBeaverSource::new(PARTY0));
    assert_eq!(fabric.available_triples(), 0);
    fabric.draw_triples(3);
    assert_eq!(fabric.available_triples(), 3);
    let (a, b, c) = fabric.next_beaver_triple();
    assert_eq!(fabric.available_triples(), 2);
    assert_eq!((a.id(), b.id(), c.id()), (4, 5, 6));
    assert_eq!(scalar_at(&fabric, 4), Some(scalar(1)));
    assert_eq!(scalar_at(&fabric, 5), Some(scalar(3)));
    assert_eq!(scalar_at(&fabric, 6), Some(scalar(2)));
    let (a, b, c) = fabric.next_beaver_triple_batch(2);
    assert_eq!(fabric.available_triples(), 0);
    let ids = |v: &Vec<MpcScalarResult>| v.iter().map(|x| x.id()).collect::<Vec<_>>();
    assert_eq!((ids(&a), ids(&b), ids(&c)), (vec![7, 8], vec![9, 10], vec![11, 12]));
}

#[test]
fn messages_survive_the_wire() {
    let g = StarkPoint::generator();
    let payloads = vec![
        NetworkPayload::Bytes(vec![]),
        NetworkPayload::Bytes(vec![9, 8, 7]),
        NetworkPayload::Scalar(scalar(77)),
        NetworkPayload::ScalarBatch(vec![]),
        NetworkPayload::ScalarBatch(vec![scalar(1), scalar(2).neg(), Scalar::random()]),
        NetworkPayload::Point(g.mul(&scalar(5))),
        NetworkPayload::Point(StarkPoint::identity()),
        NetworkPayload::PointBatch(vec![g, StarkPoint::identity(), g.neg()]),
    ];
    for (i, payload) in payloads.into_iter().enumerate() {
        let message = NetworkOutbound { result_id: 1000 + i, payload };
        let bytes = encode_message(&message);
        assert_eq!(decode_message(&bytes), Ok(message));
    }
    let message = NetworkOutbound { result_id: 0x0102, payload: NetworkPayload::Bytes(vec![5, 6]) };
    assert_eq!(
        encode_message(&message),
        vec![0, 0, 0, 0, 0, 0, 1, 2, 0, 0, 0, 0, 0, 0, 0, 0, 2, 5, 6]
    );
    let scalar_message =
        NetworkOutbound { result_id: 3, payload: NetworkPayload::Scalar(scalar(258)) };
    let encoded = encode_message(&scalar_message);
    assert_eq!(encoded.len(), 8 + 1 + 32);
    assert_eq!(&encoded[..9], &[0, 0, 0, 0, 0, 0, 0, 3, 1]);
    assert_eq!(&encoded[39..], &[1, 2]);
}

#[test]
fn malformed_frames_are_network_errors() {
    let good = encode_message(&NetworkOutbound {
        result_id: 1,
        payload: NetworkPayload::ScalarBatch(vec![scalar(1), scalar(2)]),
    });
    assert!(decode_message(&good).is_ok());
    // Too short for a result id, or for a payload
    assert_eq!(decode_message(&[]), Err(MpcError::NetworkError));
    assert_eq!(decode_message(&good[..7]), Err(MpcError::NetworkError));
    assert_eq!(decode_message(&good[..8]), Err(MpcError::NetworkError));
    // A batch that is shorter or longer than its length says
    assert_eq!(decode_message(&good[..good.len() - 1]), Err(MpcError::NetworkError));
    assert_eq!(decode_message(&good[..good.len() - 32]), Err(MpcError::NetworkError));
    let mut longer = good.clone();
    longer.push(0);
    assert_eq!(decode_message(&longer), Err(MpcError::NetworkError));
    // An unknown tag
    let mut unknown = good.clone();
    unknown[8] = 9;
    assert_eq!(decode_message(&unknown), Err(MpcError::NetworkError));
    // A scalar that is not below the order of the field
    let mut scalar_bytes = vec![0, 0, 0, 0, 0, 0, 0, 1, 1];
    scalar_bytes.extend_from_slice(&[0xff; 32]);
    assert_eq!(decode_message(&scalar_bytes), Err(MpcError::NetworkError));
    // A point that is not on the curve
    let mut point = encode_message(&NetworkOutbound {
        result_id: 1,
        payload: NetworkPayload::Point(StarkPoint::generator()),
    });
    let last = point.len() - 40;
    point[last] ^= 1;
    assert_eq!(decode_message(&point), Err(MpcError::NetworkError));
}

#[test]
fn authenticated_constants_open_to_their_values() {
    let mut p0 = party(PARTY0);
    let mut p1 = party(PARTY1);
    let one0 = p0.one_authenticated();
    let one1 = p1.one_authenticated();
    let zero0 = p0.zero_authenticated();
    let zero1 = p1.zero_authenticated();
    let id0 = p0.curve_identity_authenticated();
    let id1 = p1.curve_identity_authenticated();
    let opened = (
        one0.open_authenticated(&mut p0),
        zero0.open_authenticated(&mut p0),
        id0.open_authenticated(&mut p0),
    );
    let peer = (
        one1.open_authenticated(&mut p1),
        zero1.open_authenticated(&mut p1),
        id1.open_authenticated(&mut p1),
    );
    settle(&mut p0, &mut p1);
    assert_eq!(opened.0.resolve(&p0), Some(Ok(scalar(1))));
    assert_eq!(opened.1.resolve(&p0), Some(Ok(scalar(0))));
    assert_eq!(opened.2.poll(&p0), Some(Ok(StarkPoint::identity())));
    assert_eq!(peer.0.resolve(&p1), Some(Ok(scalar(1))));
    assert_eq!(peer.1.resolve(&p1), Some(Ok(scalar(0))));
    assert_eq!(peer.2.poll(&p1), Some(Ok(StarkPoint::identity())));
    assert_eq!(p0.ones_authenticated(3).len(), 3);
    assert_eq!(p0.zeros_authenticated(2).len(), 2);
}

#[test]
fn a_linear_combination_opens_to_its_value_in_the_clear() {
    // a * x + b * y + c for x = 11, y = 13, a = 3, b = 5, c = 7
    let mut p0 = party(PARTY0);
    let mut p1 = party(PARTY1);
    let x0 = p0.share_scalar(scalar(11), PARTY0);
    let x1 = p1.share_scalar(scalar(0), PARTY0);
    let y0 = p0.share_scalar(scalar(0), PARTY1);
    let y1 = p1.share_scalar(scalar(13), PARTY1);
    let build = |f: &mut Fabric, x: &AuthenticatedScalarResult, y: &AuthenticatedScalarResult| {
        let ax = x.mul_scalar(f, scalar(3));
        let by = y.mul_scalar(f, scalar(5));
        let sum = ax.add(f, &by);
        let shifted = sum.add_scalar(f, scalar(7));
        let reduced = shifted.sub_scalar(f, scalar(2));
        (shifted.open_authenticated(f), reduced.open_authenticated(f), sum.neg(f).open(f))
    };
    let r0 = build(&mut p0, &x0, &y0);
    let r1 = build(&mut p1, &x1, &y1);
    settle(&mut p0, &mut p1);
    assert_eq!(r0.0.resolve(&p0), Some(Ok(scalar(105))));
    assert_eq!(r1.0.resolve(&p1), Some(Ok(scalar(105))));
    assert_eq!(r0.1.resolve(&p0), Some(Ok(scalar(103))));
    assert_eq!(r1.1.resolve(&p1), Some(Ok(scalar(103))));
    assert_eq!(scalar_at(&p0, r0.2.id), Some(scalar(98).neg()));
    assert_eq!(scalar_at(&p1, r1.2.id), Some(scalar(98).neg()));
}

#[test]
fn batches_open_like_their_elements() {
    let mut p0 = party(PARTY0);
    let mut p1 = party(PARTY1);
    let g = StarkPoint::generator();
    let values = vec![g.mul(&scalar(2)), g.mul(&scalar(3)), g.mul(&scalar(5))];
    let blank = vec![StarkPoint::identity(); 3];
    let shared0 = p0.batch_share_point(values.clone(), PARTY0);
    let shared1 = p1.batch_share_point(blank, PARTY0);
    let batch0 = AuthenticatedStarkPointResult::open_authenticated_batch(&mut p0, &shared0);
    let batch1 = AuthenticatedStarkPointResult::open_authenticated_batch(&mut p1, &shared1);
    let single0: Vec<_> = shared0.iter().map(|v| v.open_authenticated(&mut p0)).collect();
    let single1: Vec<_> = shared1.iter().map(|v| v.open_authenticated(&mut p1)).collect();
    let plain0 = AuthenticatedStarkPointResult::open_batch(&mut p0, &shared0);
    let plain1 = AuthenticatedStarkPointResult::open_batch(&mut p1, &shared1);
    settle(&mut p0, &mut p1);
    for i in 0..3 {
        assert_eq!(batch0[i].poll(&p0), Some(Ok(values[i])));
        assert_eq!(batch1[i].poll(&p1), Some(Ok(values[i])));
        assert_eq!(single0[i].poll(&p0), batch0[i].poll(&p0));
        assert_eq!(single1[i].poll(&p1), batch1[i].poll(&p1));
        assert_eq!(point_at(&p0, plain0[i].id), Some(values[i]));
        assert_eq!(point_at(&p1, plain1[i].id), Some(values[i]));
    }
    assert!(AuthenticatedStarkPointResult::open_authenticated_batch(&mut p0, &[]).is_empty());
}

#[test]
fn batch_arithmetic_agrees_with_the_single_operations() {
    let mut p0 = party(PARTY0);
    let mut p1 = party(PARTY1);
    let g = StarkPoint::generator();
    let a = vec![g.mul(&scalar(2)), g.mul(&scalar(3))];
    let b = vec![g.mul(&scalar(10)), g.mul(&scalar(20))];
    let blank = vec![StarkPoint::identity(); 2];
    let a0 = p0.batch_share_point(a.clone(), PARTY0);
    let a1 = p1.batch_share_point(blank.clone(), PARTY0);
    let b0 = p0.batch_share_point(blank, PARTY1);
    let b1 = p1.batch_share_point(b.clone(), PARTY1);
    let build = |f: &mut Fabric,
                 a: &[AuthenticatedStarkPointResult],
                 b: &[AuthenticatedStarkPointResult]| {
        let public = f.allocate_points(vec![g, g.mul(&scalar(4))]);
        let factors = f.allocate_scalars(vec![scalar(6), scalar(7)]);
        let results = vec![
            AuthenticatedStarkPointResult::batch_add(f, a, b),
            AuthenticatedStarkPointResult::batch_sub(f, b, a),
            AuthenticatedStarkPointResult::batch_add_public(f, a, &public),
            AuthenticatedStarkPointResult::batch_sub_public(f, a, &public),
            AuthenticatedStarkPointResult::batch_mul_public(f, &factors, a),
            AuthenticatedStarkPointResult::batch_neg(f, a),
        ];
        results
            .iter()
            .map(|r| AuthenticatedStarkPointResult::open_authenticated_batch(f, r))
            .collect::<Vec<_>>()
    };
    let r0 = build(&mut p0, &a0, &b0);
    let r1 = build(&mut p1, &a1, &b1);
    settle(&mut p0, &mut p1);
    let expected: Vec<Vec<u64>> =
        vec![vec![12, 23], vec![8, 17], vec![3, 7], vec![1], vec![12, 21]];
    for (k, row) in expected.iter().enumerate() {
        for (i, multiple) in row.iter().enumerate() {
            let point = g.mul(&scalar(*multiple));
            assert_eq!(r0[k][i].poll(&p0), Some(Ok(point)), "operation {k}, element {i}");
            assert_eq!(r1[k][i].poll(&p1), Some(Ok(point)), "operation {k}, element {i}");
        }
    }
    // 3G - 4G
    assert_eq!(r0[3][1].poll(&p0), Some(Ok(g.neg())));
    assert_eq!(r1[3][1].poll(&p1), Some(Ok(g.neg())));
    // A negated batch has its modifiers negated with it, and they are the identity here
    assert_eq!(r0[5][0].poll(&p0), Some(Ok(g.mul(&scalar(2)).neg())));
    assert_eq!(r1[5][1].poll(&p1), Some(Ok(g.mul(&scalar(3)).neg())));
}

#[test]
fn batch_multiplication_takes_one_triple_for_each_product() {
    let mut p0 = party(PARTY0);
    let mut p1 = party(PARTY1);
    let g = StarkPoint::generator();
    let s0 = p0.batch_share_scalar(vec![scalar(2), scalar(3), scalar(4)], PARTY0);
    let s1 = p1.batch_share_scalar(vec![scalar(0); 3], PARTY0);
    let g0 = p0.batch_share_point(vec![g, g.mul(&scalar(5)), g.mul(&scalar(6))], PARTY0);
    let g1 = p1.batch_share_point(vec![StarkPoint::identity(); 3], PARTY0);
    let before = p0.available_triples();
    let r0 = AuthenticatedStarkPointResult::batch_mul(&mut p0, &s0, &g0);
    let r1 = AuthenticatedStarkPointResult::batch_mul(&mut p1, &s1, &g1);
    assert_eq!(p0.available_triples(), before - 12);
    assert_eq!(p0.next_result_id(), p1.next_result_id());
    let open0 = AuthenticatedStarkPointResult::open_authenticated_batch(&mut p0, &r0);
    let open1 = AuthenticatedStarkPointResult::open_authenticated_batch(&mut p1, &r1);
    let sum0 = AuthenticatedStarkPointResult::sum(&mut p0, &r0).open_authenticated(&mut p0);
    let sum1 = AuthenticatedStarkPointResult::sum(&mut p1, &r1).open_authenticated(&mut p1);
    settle(&mut p0, &mut p1);
    for (i, multiple) in [2u64, 15, 24].iter().enumerate() {
        assert_eq!(open0[i].poll(&p0), Some(Ok(g.mul(&scalar(*multiple)))));
        assert_eq!(open1[i].poll(&p1), Some(Ok(g.mul(&scalar(*multiple)))));
    }
    assert_eq!(sum0.poll(&p0), Some(Ok(g.mul(&scalar(41)))));
    assert_eq!(sum1.poll(&p1), Some(Ok(g.mul(&scalar(41)))));
}

#[test]
fn preshared_values_are_authenticated() {
    let mut p0 = party(PARTY0);
    let mut p1 = party(PARTY1);
    // Each party allocates its own share of 30 = 10 + 20
    let v0 = p0.allocate_preshared_scalar(scalar(10));
    let v1 = p1.allocate_preshared_scalar(scalar(20));
    let batch0 = p0.batch_allocate_preshared_scalar(vec![scalar(1), scalar(2)]);
    let batch1 = p1.batch_allocate_preshared_scalar(vec![scalar(3), scalar(4)]);
    let bit0 = p0.random_shared_bit();
    let bit1 = p1.random_shared_bit();
    let (l0, r0) = p0.random_inverse_pair();
    let (l1, r1) = p1.random_inverse_pair();
    let product0 = l0.mul(&mut p0, &r0);
    let product1 = l1.mul(&mut p1, &r1);
    let opened0 = vec![
        v0.open_authenticated(&mut p0),
        batch0[0].open_authenticated(&mut p0),
        batch0[1].open_authenticated(&mut p0),
        bit0.open_authenticated(&mut p0),
        product0.open_authenticated(&mut p0),
    ];
    let opened1 = vec![
        v1.open_authenticated(&mut p1),
        batch1[0].open_authenticated(&mut p1),
        batch1[1].open_authenticated(&mut p1),
        bit1.open_authenticated(&mut p1),
        product1.open_authenticated(&mut p1),
    ];
    let bits0 = p0.random_shared_bits(2);
    let bits1 = p1.random_shared_bits(2);
    let (ls0, rs0) = p0.random_inverse_pairs(2);
    let (ls1, rs1) = p1.random_inverse_pairs(2);
    let values0 = p0.random_shared_scalars(2);
    let values1 = p1.random_shared_scalars(2);
    let auth0 = p0.random_shared_scalars_authenticated(2);
    let auth1 = p1.random_shared_scalars_authenticated(2);
    assert_eq!(p0.next_result_id(), p1.next_result_id());
    assert_eq!((bits0.len(), ls0.len(), rs0.len(), values0.len(), auth0.len()), (2, 2, 2, 2, 2));
    assert_eq!((bits1.len(), ls1.len(), rs1.len(), values1.len(), auth1.len()), (2, 2, 2, 2, 2));
    let late0 = auth0[1].open_authenticated(&mut p0);
    let late1 = auth1[1].open_authenticated(&mut p1);
    settle(&mut p0, &mut p1);
    for (i, expected) in [30u64, 4, 6, 1, 1].iter().enumerate() {
        assert_eq!(opened0[i].resolve(&p0), Some(Ok(scalar(*expected))));
        assert_eq!(opened1[i].resolve(&p1), Some(Ok(scalar(*expected))));
    }
    assert_eq!(late0.resolve(&p0), Some(Ok(scalar(1))));
    assert_eq!(late1.resolve(&p1), Some(Ok(scalar(1))));
}

#[test]
fn random_scalars_differ() {
    let a = Scalar::random();
    let b = Scalar::random();
    assert_ne!(a, b);
    assert_ne!(mpc_stark::random_point(), mpc_stark::random_point());
}

#[test]
fn a_gate_is_evaluated_once_its_last_argument_arrives() {
    let mut fabric = party(PARTY0);
    let first: ScalarResult = fabric.receive_value();
    let second: ScalarResult = fabric.receive_value();
    let product = first.mul(&mut fabric, &second);
    let square = second.mul(&mut fabric, &second);
    let total = product.add(&mut fabric, &square);
    fabric.run_executor();
    assert_eq!(fabric.result(product.id), None);
    // The later of the two arguments arrives first
    fabric.receive_message(second.id, NetworkPayload::Scalar(scalar(7)));
    fabric.run_executor();
    assert_eq!(fabric.result(product.id), None);
    assert_eq!(scalar_at(&fabric, square.id), Some(scalar(49)));
    assert_eq!(fabric.result(total.id), None);
    fabric.receive_message(first.id, NetworkPayload::Scalar(scalar(6)));
    fabric.run_executor();
    assert_eq!(scalar_at(&fabric, product.id), Some(scalar(42)));
    assert_eq!(scalar_at(&fabric, total.id), Some(scalar(91)));
}

#[test]
fn a_gate_declared_after_its_arguments_arrived_is_evaluated_at_once() {
    let mut fabric = party(PARTY0);
    let first: ScalarResult = fabric.receive_value();
    let second: ScalarResult = fabric.receive_value();
    fabric.receive_message(first.id, NetworkPayload::Scalar(scalar(6)));
    fabric.run_executor();
    let early = first.add(&mut fabric, &first);
    let late = first.add(&mut fabric, &second);
    fabric.run_executor();
    assert_eq!(scalar_at(&fabric, early.id), Some(scalar(12)));
    assert_eq!(fabric.result(late.id), None);
    fabric.receive_message(second.id, NetworkPayload::Scalar(scalar(1)));
    fabric.run_executor();
    assert_eq!(scalar_at(&fabric, late.id), Some(scalar(7)));
}

#[test]
fn a_value_that_arrives_before_its_slot_is_allocated_is_kept() {
    let mut fabric = party(PARTY1);
    let next = fabric.next_result_id();
    // The peer is ahead: its value is there before the slot is
    fabric.receive_message(next, NetworkPayload::Scalar(scalar(8)));
    fabric.receive_message(next, NetworkPayload::Scalar(scalar(9)));
    fabric.run_executor();
    assert_eq!(fabric.result(next), None);
    let remote: ScalarResult = fabric.receive_value();
    assert_eq!(remote.id, next);
    let doubled = remote.add(&mut fabric, &remote);
    fabric.run_executor();
    assert_eq!(scalar_at(&fabric, remote.id), Some(scalar(8)));
    assert_eq!(scalar_at(&fabric, doubled.id), Some(scalar(16)));
}

#[test]
fn a_value_that_arrives_before_the_exchange_is_declared_is_kept() {
    let mut fabric = party(PARTY0);
    let mine = fabric.allocate_scalar(scalar(10));
    let next = fabric.next_result_id();
    // The first party sends under the next id and receives under the one after
    fabric.receive_message(next + 1, NetworkPayload::Scalar(scalar(11)));
    fabric.run_executor();
    let theirs = fabric.exchange_value(&mine);
    assert_eq!(theirs.id, next + 1);
    let sum = mine.add(&mut fabric, &theirs);
    fabric.run_executor();
    assert_eq!(scalar_at(&fabric, theirs.id), Some(scalar(11)));
    assert_eq!(scalar_at(&fabric, sum.id), Some(scalar(21)));
    let sent = fabric.drain_outbound();
    assert_eq!(sent.len(), 1);
    assert_eq!(sent[0].result_id, next);
    assert_eq!(sent[0].payload, NetworkPayload::Scalar(scalar(10)));
}

#[test]
fn an_early_value_for_a_result_of_the_fabric_s_own_is_dropped() {
    let mut fabric = party(PARTY0);
    let next = fabric.next_result_id();
    fabric.receive_message(next, NetworkPayload::Scalar(scalar(99)));
    fabric.receive_message(next + 1, NetworkPayload::Scalar(scalar(98)));
    fabric.run_executor();
    let local = fabric.allocate_scalar(scalar(5));
    let sum = local.add(&mut fabric, &local);
    assert_eq!((local.id, sum.id), (next, next + 1));
    fabric.run_executor();
    assert_eq!(scalar_at(&fabric, local.id), Some(scalar(5)));
    assert_eq!(scalar_at(&fabric, sum.id), Some(scalar(10)));
}

#[test]
fn the_executor_stops_at_a_shutdown() {
    let mut fabric = party(PARTY0);
    let remote: ScalarResult = fabric.receive_value();
    let late: ScalarResult = fabric.receive_value();
    fabric.receive_message(remote.id, NetworkPayload::Scalar(scalar(3)));
    fabric.shutdown();
    fabric.receive_message(late.id, NetworkPayload::Scalar(scalar(4)));
    fabric.run_executor();
    assert_eq!(scalar_at(&fabric, remote.id), Some(scalar(3)));
    assert_eq!(fabric.result(late.id), None);
    assert!(!fabric.step_executor());
    fabric.run_executor();
    assert_eq!(fabric.result(late.id), None);
}

#[test]
fn a_value_that_arrives_before_a_network_operation_is_declared_is_kept() {
    let mut fabric = party(PARTY1);
    let mine = fabric.allocate_scalar(scalar(10));
    let next = fabric.next_result_id();
    fabric.receive_message(next, NetworkPayload::Scalar(scalar(11)));
    fabric.run_executor();
    let sent: ScalarResult = fabric.new_network_op(vec![mine.id], NetworkFunction::SendArgument);
    assert_eq!(sent.id, next);
    fabric.run_executor();
    assert_eq!(scalar_at(&fabric, next), Some(scalar(11)));
}

#[test]
fn a_consumer_that_waits_for_a_value_is_woken_when_the_value_is_allocated() {
    let mut fabric = party(PARTY0);
    let next = fabric.next_result_id();
    assert_eq!(fabric.poll(next, 7), None);
    assert_eq!(fabric.poll(next + 1, 8), None);
    assert!(fabric.drain_woken().is_empty());
    let value = fabric.allocate_scalar(scalar(5));
    assert_eq!(value.id, next);
    assert_eq!(fabric.drain_woken(), vec![7]);
    assert_eq!(fabric.poll(next, 9), Some(ResultValue::Scalar(scalar(5))));
    assert!(fabric.drain_woken().is_empty());
}
