use pow_service::messages::codec::{PowMessage, PowRequest, PowResponse, Register};
use pow_service::messages::{
    ServerMessage, ServerSubmitRequest, TaskResponse, TaskSubmit, TaskSubmitResponse,
};
use pow_service::tasks::proxy::{
    expiration, health_handler, submit_task_handler, task_result_handler, ProxyServer,
    ServerWorker, StreamAction, StreamEvent, SubmitOutcome,
};
use std::collections::HashMap;

const MINUTE: u128 = 60_000_000_000;

fn task(node: u8, priority: u16) -> TaskSubmit {
    TaskSubmit {
        priority,
        challenge: [node.wrapping_add(1); 32],
        start_nonce: 0,
        end_nonce: 288,
        difficulty: 4,
        pow_difficulty: [5; 32],
        node_id: [node; 32],
        pow_flags: "flags".to_string(),
    }
}

fn key(node: u8) -> String {
    format!("{:02x}", node).repeat(32)
}

fn submission(node: u8) -> String {
    format!("{}-0-288", key(node))
}

fn register(name: &str) -> StreamEvent {
    StreamEvent::Message(PowMessage::Register(Register { name: name.to_string() }))
}

fn pows() -> HashMap<u32, u64> {
    let mut pows = HashMap::new();
    pows.insert(1u32, 2u64);
    pows
}

fn response(id: String) -> StreamEvent {
    StreamEvent::Message(PowMessage::Response(PowResponse { id, ciphers_pows: pows() }))
}

fn message(name: Option<&str>, request: TaskSubmit) -> ServerMessage {
    ServerMessage::ServerSubmitRequest(ServerSubmitRequest {
        worker_name: name.map(|name| name.to_string()),
        request,
    })
}

fn submit(server: &mut ProxyServer<u64>, request: TaskSubmit) -> SubmitOutcome {
    submit_task_handler(server, request, false).1
}

fn ask(server: &ProxyServer<u64>, id: String) -> TaskResponse {
    task_result_handler(server, TaskSubmitResponse { id }, None)
}

fn status(server: &ProxyServer<u64>, name: &str) -> Option<u8> {
    server.workers.get(&name.to_string()).map(|worker| worker.status)
}

#[test]
fn new_worker_is_idle() {
    let worker = ServerWorker::new(3u64);
    assert_eq!(worker.router, 3);
    assert_eq!(worker.status, 1);
}

#[test]
fn results_are_kept_by_network() {
    assert_eq!(expiration(&"mainnet".to_string()), 3600);
    assert_eq!(expiration(&"testnet".to_string()), 600);
    assert_eq!(expiration(&"other".to_string()), 3600);
    assert_eq!(expiration(&"".to_string()), 3600);
}

#[test]
fn proxy_says_that_it_is_alive() {
    assert!(health_handler());
}

#[test]
fn submission_waits_without_workers() {
    let mut server = ProxyServer::<u64>::new();
    let (answer, outcome) = submit_task_handler(&mut server, task(7, 3), false);
    assert_eq!(answer, TaskSubmitResponse { id: submission(7) });
    assert!(matches!(outcome, SubmitOutcome::Queued));
    assert_eq!(server.census(), (0, 1));
}

#[test]
fn second_submission_of_a_node_is_ignored() {
    let mut server = ProxyServer::<u64>::new();
    assert!(matches!(submit(&mut server, task(7, 3)), SubmitOutcome::Queued));
    let mut other = task(7, 1);
    other.start_nonce = 5;
    let (answer, outcome) = submit_task_handler(&mut server, other, false);
    assert_eq!(answer.id, format!("{}-5-288", key(7)));
    assert!(matches!(outcome, SubmitOutcome::Duplicate));
    assert_eq!(server.census(), (0, 1));
    assert!(matches!(submit(&mut server, task(8, 3)), SubmitOutcome::Queued));
    assert_eq!(server.census(), (0, 2));
}

#[test]
fn submission_with_a_stored_result_is_ignored() {
    let mut server = ProxyServer::<u64>::new();
    let (answer, outcome) = submit_task_handler(&mut server, task(7, 3), true);
    assert_eq!(answer.id, submission(7));
    assert!(matches!(outcome, SubmitOutcome::Duplicate));
    assert_eq!(server.census(), (0, 0));
}

#[test]
fn submission_that_is_pending_under_its_id_is_ignored() {
    let mut server = ProxyServer::<u64>::new();
    server.pending.insert(submission(7), 0);
    assert!(matches!(submit(&mut server, task(7, 3)), SubmitOutcome::Duplicate));
    assert!(matches!(submit(&mut server, task(8, 3)), SubmitOutcome::Queued));
}

#[test]
fn submission_goes_to_an_idle_worker() {
    let mut server = ProxyServer::<u64>::new();
    server.workers.insert("busy".to_string(), ServerWorker { router: 1, status: 2 });
    server.workers.insert("idle".to_string(), ServerWorker { router: 2, status: 1 });
    match submit(&mut server, task(7, 3)) {
        SubmitOutcome::Assigned(sent) => assert_eq!(sent, message(Some("idle"), task(7, 3))),
        _ => panic!("a worker is idle"),
    }
    assert_eq!(status(&server, "idle"), Some(1));
    assert_eq!(server.census(), (2, 0));
}

#[test]
fn dispatch_marks_the_worker_and_keeps_the_task() {
    let mut server = ProxyServer::<u64>::new();
    server.workers.insert("w".to_string(), ServerWorker::new(1));
    let order = server.dispatch(message(Some("w"), task(7, 3)), 11);
    assert_eq!(
        order,
        PowRequest {
            id: key(7),
            challenge: [8; 32],
            start_nonce: 0,
            end_nonce: 288,
            difficulty: 4,
            pow_difficulty: [5; 32],
            node_id: [7; 32],
            pow_flags: "flags".to_string(),
        }
    );
    assert_eq!(status(&server, "w"), Some(2));
    assert_eq!(server.pending.get(&key(7)), Some(&11));
    assert!(matches!(submit(&mut server, task(8, 3)), SubmitOutcome::Queued));
}

#[test]
fn dispatch_without_a_name_marks_no_worker() {
    let mut server = ProxyServer::<u64>::new();
    server.workers.insert("w".to_string(), ServerWorker::new(1));
    server.dispatch(message(None, task(7, 3)), 11);
    assert_eq!(status(&server, "w"), Some(1));
    assert_eq!(server.pending.len(), 1);
    assert!(server.can_dispatch(&message(None, task(7, 3))));
    assert!(server.can_dispatch(&message(Some("w"), task(7, 3))));
    assert!(!server.can_dispatch(&message(Some("x"), task(7, 3))));
}

#[test]
fn new_worker_gets_the_most_urgent_task() {
    let mut server = ProxyServer::<u64>::new();
    submit(&mut server, task(1, 5));
    submit(&mut server, task(2, 3));
    submit(&mut server, task(3, 4));
    let mut name = "127.0.0.1:5".to_string();
    match server.handle_stream(&mut name, register("w"), 9) {
        StreamAction::Assign(sent) => assert_eq!(sent, message(Some("w"), task(2, 3))),
        _ => panic!("tasks wait"),
    }
    assert_eq!(name, "w");
    assert_eq!(status(&server, "w"), Some(1));
    assert_eq!(server.workers.get(&name).unwrap().router, 9);
    assert_eq!(server.census(), (1, 2));
}

#[test]
fn tasks_leave_in_the_order_of_their_priority() {
    let mut server = ProxyServer::<u64>::new();
    for (node, priority) in [(1, 9), (2, 0), (3, 65535), (4, 2), (5, 2), (6, 1)] {
        submit(&mut server, task(node, priority));
    }
    let mut seen = Vec::new();
    while let Some(task) = server.queue.pop() {
        seen.push(task.priority);
    }
    assert_eq!(seen, vec![0, 1, 2, 2, 9, 65535]);
    assert!(server.queue.is_empty());
    assert!(server.queue.pop().is_none());
}

#[test]
fn equal_task_is_queued_once() {
    let mut server = ProxyServer::<u64>::new();
    server.queue.push(task(1, 9));
    server.queue.push(task(1, 9));
    assert_eq!(server.queue.len(), 1);
    server.queue.push(task(1, 8));
    assert_eq!(server.queue.len(), 2);
    assert_eq!(server.queue.pop(), Some(task(1, 8)));
    assert_eq!(server.queue.pop(), Some(task(1, 9)));
}

#[test]
fn heart_beats_change_nothing() {
    let mut server = ProxyServer::<u64>::new();
    let mut name = "127.0.0.1:5".to_string();
    assert!(matches!(server.handle_stream(&mut name, register("w"), 9), StreamAction::Nothing));
    server.workers.insert("w".to_string(), ServerWorker { router: 9, status: 2 });
    submit(&mut server, task(1, 5));
    assert!(matches!(server.handle_stream(&mut name, register("w"), 9), StreamAction::Nothing));
    assert_eq!(status(&server, "w"), Some(2));
    assert_eq!(server.census(), (1, 1));
}

#[test]
fn response_is_stored_and_the_worker_becomes_idle() {
    let mut server = ProxyServer::<u64>::new();
    let mut name = "w".to_string();
    server.workers.insert(name.clone(), ServerWorker::new(1));
    server.dispatch(message(Some("w"), task(7, 3)), 11);
    match server.handle_stream(&mut name, response(key(7)), 1) {
        StreamAction::Store(result, next) => {
            assert_eq!(result, TaskResponse::completed(key(7), pows()));
            assert!(next.is_none());
            let question = TaskSubmitResponse { id: key(7) };
            let answer = task_result_handler(&server, question, Some(result));
            assert_eq!(answer, TaskResponse::completed(key(7), pows()));
        }
        _ => panic!("the result is to be stored"),
    }
    assert_eq!(server.pending.len(), 0);
    assert_eq!(status(&server, "w"), Some(1));
}

#[test]
fn responding_worker_gets_the_next_task() {
    let mut server = ProxyServer::<u64>::new();
    let mut name = "w".to_string();
    server.workers.insert(name.clone(), ServerWorker { router: 1, status: 2 });
    submit(&mut server, task(1, 5));
    submit(&mut server, task(2, 3));
    match server.handle_stream(&mut name, response(key(9)), 1) {
        StreamAction::Store(result, next) => {
            assert_eq!(result, TaskResponse::completed(key(9), pows()));
            assert_eq!(next, Some(message(None, task(2, 3))));
        }
        _ => panic!("the result is to be stored"),
    }
    assert_eq!(status(&server, "w"), Some(2));
    assert_eq!(server.census(), (1, 1));
}

#[test]
fn request_from_a_worker_is_ignored() {
    let mut server = ProxyServer::<u64>::new();
    let mut name = "w".to_string();
    let request = server.dispatch(message(None, task(7, 3)), 0);
    let event = StreamEvent::Message(PowMessage::Request(request));
    assert!(matches!(server.handle_stream(&mut name, event, 1), StreamAction::Nothing));
    assert_eq!(name, "w");
    assert_eq!(server.census(), (0, 0));
}

#[test]
fn silent_and_broken_workers_are_forgotten() {
    for event in [StreamEvent::Silent, StreamEvent::Broken] {
        let mut server = ProxyServer::<u64>::new();
        let mut name = "w".to_string();
        server.workers.insert("w".to_string(), ServerWorker::new(1));
        server.workers.insert("x".to_string(), ServerWorker::new(2));
        submit_task_handler(&mut server, task(1, 1), false);
        assert!(server.is_ready(&name, &event));
        assert!(matches!(server.handle_stream(&mut name, event, 1), StreamAction::Close));
        assert_eq!(status(&server, "w"), None);
        assert_eq!(status(&server, "x"), Some(1));
    }
}

#[test]
fn proxy_is_not_ready_for_unknown_workers() {
    let mut server = ProxyServer::<u64>::new();
    let name = "w".to_string();
    assert!(!server.is_ready(&name, &StreamEvent::Silent));
    assert!(!server.is_ready(&name, &StreamEvent::Broken));
    assert!(!server.is_ready(&name, &response(key(1))));
    assert!(server.is_ready(&name, &register("w")));
    submit(&mut server, task(1, 1));
    assert!(server.is_ready(&name, &response(key(1))));
    assert!(!server.is_ready(&name, &StreamEvent::Silent));
    server.workers.insert(name.clone(), ServerWorker::new(1));
    assert!(server.is_ready(&name, &StreamEvent::Silent));
}

#[test]
fn question_is_answered_from_queue_and_pending() {
    let mut server = ProxyServer::<u64>::new();
    assert_eq!(ask(&server, key(7)), TaskResponse::missed(key(7)));
    submit(&mut server, task(7, 3));
    assert_eq!(ask(&server, key(7)), TaskResponse::init(key(7)));
    assert_eq!(ask(&server, key(8)), TaskResponse::missed(key(8)));
    assert_eq!(ask(&server, submission(7)), TaskResponse::missed(submission(7)));
    let waiting = server.queue.pop().unwrap();
    assert_eq!(ask(&server, key(7)), TaskResponse::missed(key(7)));
    server.dispatch(message(None, waiting), 0);
    assert_eq!(ask(&server, key(7)), TaskResponse::init(key(7)));
}

#[test]
fn stored_result_is_the_answer() {
    let mut server = ProxyServer::<u64>::new();
    submit(&mut server, task(7, 3));
    let stored = TaskResponse::completed(key(7), pows());
    let question = TaskSubmitResponse { id: key(7) };
    assert_eq!(task_result_handler(&server, question, Some(stored.clone())), stored);
}

#[test]
fn late_tasks_are_given_up() {
    let mut server = ProxyServer::<u64>::new();
    server.dispatch(message(None, task(1, 1)), 0);
    server.dispatch(message(None, task(2, 1)), 1);
    server.dispatch(message(None, task(3, 1)), 5 * MINUTE);
    server.dispatch(message(None, task(4, 1)), 20 * MINUTE);
    server.expire_pending(10 * MINUTE);
    assert_eq!(ask(&server, key(1)).status, 3);
    assert_eq!(ask(&server, key(2)).status, 1);
    assert_eq!(ask(&server, key(3)).status, 1);
    assert_eq!(ask(&server, key(4)).status, 1);
    server.expire_pending(15 * MINUTE);
    assert_eq!(server.pending.len(), 1);
    assert_eq!(server.pending.get(&key(4)), Some(&(20 * MINUTE)));
}

#[test]
fn names_are_kept_once() {
    let mut server = ProxyServer::<u64>::new();
    server.pending.insert("a".to_string(), 1);
    server.pending.insert("b".to_string(), 2);
    server.pending.insert("a".to_string(), 3);
    assert_eq!(server.pending.len(), 2);
    assert_eq!(server.pending.get(&"a".to_string()), Some(&3));
    assert_eq!(server.pending.remove(&"b".to_string()), Some(2));
    assert_eq!(server.pending.remove(&"b".to_string()), None);
    assert!(!server.pending.contains(&"b".to_string()));
    assert_eq!(server.pending.at(0), (&"a".to_string(), &3));
}

#[test]
fn recorded_response_is_no_longer_pending() {
    let mut server = ProxyServer::<u64>::new();
    server.dispatch(message(None, task(7, 3)), 0);
    let result = server.record_response(PowResponse { id: key(7), ciphers_pows: pows() });
    assert_eq!(result, TaskResponse::completed(key(7), pows()));
    assert_eq!(server.pending.len(), 0);
}
