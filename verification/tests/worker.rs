use pow_service::messages::codec::{PowMessage, PowRequest, PowResponse, Register};
use pow_service::tasks::worker::{
    calculate_pow, handle_connection, heart_beat, is_computable, nonce_group_range, prover_calls,
    reconnect_delay, response_message, ConnectionAction, HEART_BEAT_SECONDS,
};
use std::collections::HashMap;

fn order(start_nonce: u32, end_nonce: u32) -> PowRequest {
    let mut challenge = [0u8; 32];
    for i in 0..32 {
        challenge[i] = i as u8;
    }
    PowRequest {
        id: "id".to_string(),
        challenge,
        start_nonce,
        end_nonce,
        difficulty: 1,
        pow_difficulty: [2; 32],
        node_id: [3; 32],
        pow_flags: "flags".to_string(),
    }
}

#[test]
fn groups_of_nonces() {
    assert_eq!(nonce_group_range(0..288, 16), 0..18);
    assert_eq!(nonce_group_range(0..16, 16), 0..1);
    assert_eq!(nonce_group_range(0..17, 16), 0..2);
    assert_eq!(nonce_group_range(16..32, 16), 1..2);
    assert_eq!(nonce_group_range(15..33, 16), 0..3);
    assert_eq!(nonce_group_range(288..576, 16), 18..36);
}

#[test]
fn there_is_always_a_group() {
    assert_eq!(nonce_group_range(0..0, 16), 0..1);
    assert_eq!(nonce_group_range(100..0, 16), 6..7);
    assert_eq!(nonce_group_range(u32::MAX..0, 16), 268435455..268435456);
}

#[test]
fn largest_nonces_have_groups() {
    assert_eq!(nonce_group_range(0..u32::MAX - 16, 16), 0..268435455);
    assert_eq!(nonce_group_range(0..u32::MAX - 1, 1), 0..u32::MAX - 1);
    assert_eq!(nonce_group_range(0..1, u32::MAX - 1), 0..1);
}

#[test]
fn prover_is_asked_for_each_group() {
    let calls = prover_calls(&order(16, 49));
    assert_eq!(calls.len(), 3);
    for (i, call) in calls.iter().enumerate() {
        assert_eq!(call.nonce_group, 1 + i as u8);
        assert_eq!(call.challenge, [0, 1, 2, 3, 4, 5, 6, 7]);
        assert_eq!(call.pow_difficulty, [2; 32]);
        assert_eq!(call.miner_id, [3; 32]);
    }
}

#[test]
fn groups_beyond_a_byte_cannot_be_computed() {
    assert!(is_computable(&order(0, 4096)));
    assert!(!is_computable(&order(0, 4097)));
    assert!(is_computable(&order(4095, 0)));
    assert!(!is_computable(&order(4096, 0)));
    assert!(!is_computable(&order(0, u32::MAX)));
    assert!(!is_computable(&order(0, u32::MAX - 15)));
    assert_eq!(prover_calls(&order(4080, 4096)).len(), 1);
    assert_eq!(prover_calls(&order(4080, 4096))[0].nonce_group, 255);
}

#[test]
fn proofs_of_work_are_kept_by_group() {
    let pows = calculate_pow(&order(16, 49), &vec![70, 80, 90]);
    let mut expected = HashMap::new();
    expected.insert(1u32, 70u64);
    expected.insert(2, 80);
    expected.insert(3, 90);
    assert_eq!(pows, expected);
}

#[test]
fn every_nonce_finds_its_proof_of_work() {
    let task = order(5, 100);
    let found: Vec<u64> = prover_calls(&task).iter().map(|call| call.nonce_group as u64).collect();
    let pows = calculate_pow(&task, &found);
    for nonce in 5..100u32 {
        assert_eq!(pows.get(&(nonce / 16)), Some(&(nonce as u64 / 16)));
    }
    assert_eq!(pows.len(), 7);
}

#[test]
fn worker_computes_requests_only() {
    match handle_connection(Some(PowMessage::Request(order(1, 2)))) {
        ConnectionAction::Compute(request) => assert_eq!(request, order(1, 2)),
        ConnectionAction::Stop => panic!("a request is to be computed"),
    }
    let register = PowMessage::Register(Register { name: "w".to_string() });
    assert!(matches!(handle_connection(Some(register)), ConnectionAction::Stop));
    assert!(matches!(handle_connection(None), ConnectionAction::Stop));
    let response = response_message("id".to_string(), HashMap::new());
    assert!(matches!(handle_connection(Some(response)), ConnectionAction::Stop));
}

#[test]
fn worker_makes_heart_beats_and_responses() {
    let beat = heart_beat(&"w".to_string());
    assert_eq!(beat, PowMessage::Register(Register { name: "w".to_string() }));
    assert_eq!(HEART_BEAT_SECONDS, 30);
    let mut pows = HashMap::new();
    pows.insert(1u32, 70u64);
    let response = response_message("id".to_string(), pows.clone());
    assert_eq!(
        response,
        PowMessage::Response(PowResponse { id: "id".to_string(), ciphers_pows: pows })
    );
}

#[test]
fn task_without_nonces_has_one_group() {
    let pows = calculate_pow(&order(40, 40), &vec![7]);
    assert_eq!(pows.len(), 1);
    assert_eq!(pows.get(&2), Some(&7));
}

#[test]
fn delays_before_the_next_connection() {
    assert_eq!(reconnect_delay(true), 10);
    assert_eq!(reconnect_delay(false), 30);
}
