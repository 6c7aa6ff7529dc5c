use pow_service::messages::{TaskResponse, TaskSubmit, TaskSubmitResponse};
use std::collections::HashMap;

#[test]
fn responses_have_their_status() {
    let init = TaskResponse::init("a".to_string());
    assert_eq!(init, TaskResponse { id: "a".to_string(), status: 1, data: None });
    let mut pows = HashMap::new();
    pows.insert(1u32, 2u64);
    let completed = TaskResponse::completed("b".to_string(), pows.clone());
    assert_eq!(completed, TaskResponse { id: "b".to_string(), status: 2, data: Some(pows) });
    let missed = TaskResponse::missed("c".to_string());
    assert_eq!(missed, TaskResponse { id: "c".to_string(), status: 3, data: None });
}

#[test]
fn clones_are_equal() {
    let task = TaskSubmit {
        priority: 7,
        challenge: [1; 32],
        start_nonce: 2,
        end_nonce: 3,
        difficulty: 4,
        pow_difficulty: [5; 32],
        node_id: [6; 32],
        pow_flags: "RandomXFlag".to_string(),
    };
    assert_eq!(task.clone(), task);
    let question = TaskSubmitResponse { id: "x".to_string() };
    assert_eq!(question.clone(), question);
}
