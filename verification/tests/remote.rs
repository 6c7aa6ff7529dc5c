use pow_service::messages::{TaskResponse, TaskSubmit, TaskSubmitResponse};
use pow_service::remote::{
    generate_pow_remotely, post_server_check, PowEvent, PowState, RemotePow, ServerDown,
};
use std::collections::HashMap;

fn remote() -> RemotePow {
    generate_pow_remotely(
        [1; 32],
        7,
        "127.0.0.1:9000",
        &[2; 32],
        3,
        [4; 32],
        5..6,
        "flags".to_string(),
    )
}

fn answer(id: &str) -> PowEvent {
    PowEvent::Submitted(TaskSubmitResponse { id: id.to_string() })
}

#[test]
fn task_is_prepared_for_the_proxy() {
    let remote = remote();
    assert_eq!(
        remote.request,
        TaskSubmit {
            priority: 7,
            challenge: [2; 32],
            start_nonce: 5,
            end_nonce: 6,
            difficulty: 3,
            pow_difficulty: [4; 32],
            node_id: [1; 32],
            pow_flags: "flags".to_string(),
        }
    );
    assert_eq!(remote.submit_url, "http://127.0.0.1:9000/submit");
    assert_eq!(remote.query_url, "http://127.0.0.1:9000/task");
    assert!(matches!(remote.state, PowState::Submitting));
}

#[test]
fn client_asks_until_the_task_is_completed() {
    let mut remote = remote();
    remote.handle(answer("a"));
    assert!(matches!(&remote.state, PowState::Asking(id) if id == "a"));
    remote.handle(PowEvent::Answered(Some(TaskResponse::init("a".to_string()))));
    assert!(matches!(&remote.state, PowState::Waiting(id) if id == "a"));
    remote.handle(PowEvent::Waited);
    assert!(matches!(&remote.state, PowState::Asking(id) if id == "a"));
    remote.handle(PowEvent::Answered(None));
    assert!(matches!(&remote.state, PowState::Waiting(id) if id == "a"));
    remote.handle(PowEvent::Waited);
    let strange = TaskResponse { id: "a".to_string(), status: 9, data: None };
    remote.handle(PowEvent::Answered(Some(strange)));
    assert!(matches!(&remote.state, PowState::Waiting(id) if id == "a"));
    remote.handle(PowEvent::Waited);
    let mut pows = HashMap::new();
    pows.insert(1u32, 2u64);
    let completed = TaskResponse::completed("a".to_string(), pows.clone());
    remote.handle(PowEvent::Answered(Some(completed)));
    assert!(matches!(&remote.state, PowState::Done(found) if *found == pows));
}

#[test]
fn missed_task_goes_out_again_before_the_wait() {
    let mut remote = remote();
    let request = remote.request.clone();
    remote.handle(answer("a"));
    remote.handle(PowEvent::Answered(Some(TaskResponse::missed("a".to_string()))));
    assert!(matches!(remote.state, PowState::Resubmitting));
    assert_eq!(remote.request, request);
    remote.handle(answer("b"));
    assert!(matches!(&remote.state, PowState::Waiting(id) if id == "b"));
    remote.handle(PowEvent::Waited);
    assert!(matches!(&remote.state, PowState::Asking(id) if id == "b"));
}

#[test]
fn events_that_cannot_follow_are_told_apart() {
    let mut remote = remote();
    assert!(remote.accepts(&answer("a")));
    assert!(!remote.accepts(&PowEvent::Waited));
    assert!(!remote.accepts(&PowEvent::Answered(None)));
    remote.handle(answer("a"));
    assert!(remote.accepts(&PowEvent::Answered(None)));
    assert!(!remote.accepts(&answer("a")));
    let broken = TaskResponse { id: "a".to_string(), status: 2, data: None };
    assert!(!remote.accepts(&PowEvent::Answered(Some(broken))));
    remote.handle(PowEvent::Answered(None));
    assert!(remote.accepts(&PowEvent::Waited));
}

#[test]
fn server_that_does_not_answer_is_down() {
    assert_eq!(post_server_check(true), Ok(()));
    assert_eq!(post_server_check(false), Err(ServerDown));
    assert_eq!(ServerDown.message(), "post server doesn't work");
}

#[test]
fn task_is_submitted_once_more_for_each_miss() {
    let mut remote = remote();
    let mut submissions = 0;
    let mut misses = 0;
    let mut latest = String::new();
    loop {
        let event = match &remote.state {
            PowState::Submitting | PowState::Resubmitting => {
                submissions += 1;
                latest = format!("task{}", submissions);
                answer(&latest)
            }
            PowState::Asking(id) => {
                assert_eq!(*id, latest);
                if misses < 3 {
                    misses += 1;
                    PowEvent::Answered(Some(TaskResponse::missed(id.clone())))
                } else {
                    PowEvent::Answered(Some(TaskResponse::completed(id.clone(), HashMap::new())))
                }
            }
            PowState::Waiting(_) => PowEvent::Waited,
            PowState::Done(_) => break,
        };
        remote.handle(event);
    }
    assert_eq!(misses, 3);
    assert_eq!(submissions, 4);
}
