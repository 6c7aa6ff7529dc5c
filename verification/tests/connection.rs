use pow_service::messages::codec::{PowMessage, PowRequest, Register};
use pow_service::tasks::connection::{
    heart_step, send_step, HeartAction, HeartEvent, SendAction, SendEvent,
};
use pow_service::tasks::worker::{handle_connection, response_message, ConnectionAction};
use std::collections::HashMap;

fn beat(name: &str) -> PowMessage {
    PowMessage::Register(Register { name: name.to_string() })
}

fn request() -> PowMessage {
    PowMessage::Request(PowRequest {
        id: "id".to_string(),
        challenge: [1; 32],
        start_nonce: 0,
        end_nonce: 16,
        difficulty: 1,
        pow_difficulty: [2; 32],
        node_id: [3; 32],
        pow_flags: "flags".to_string(),
    })
}

fn response(id: &str) -> PowMessage {
    let mut pows = HashMap::new();
    pows.insert(0u32, 9u64);
    response_message(id.to_string(), pows)
}

#[test]
fn heart_beats_and_responses_are_written() {
    for message in [beat("w"), response("id")] {
        let expected = match &message {
            PowMessage::Register(_) => beat("w"),
            _ => response("id"),
        };
        match send_step(SendEvent::Taken(message)) {
            SendAction::Write(written) => assert_eq!(written, expected),
            other => panic!("not written: {:?}", other),
        }
    }
}

#[test]
fn requests_are_passed_over() {
    assert!(matches!(send_step(SendEvent::Taken(request())), SendAction::Skip));
}

#[test]
fn failed_write_ends_the_sending() {
    assert!(matches!(send_step(SendEvent::Written(false)), SendAction::End));
    assert!(matches!(send_step(SendEvent::Written(true)), SendAction::Next));
}

#[test]
fn first_heart_beat_goes_at_once_and_then_every_half_minute() {
    let name = "w".to_string();
    let mut event = HeartEvent::Begun;
    let mut rested = 0;
    let mut times = Vec::new();
    while times.len() < 4 {
        event = match heart_step(&name, event) {
            HeartAction::Beat(message) => {
                assert_eq!(message, beat("w"));
                times.push(rested);
                HeartEvent::Queued(true)
            }
            HeartAction::Rest(seconds) => {
                rested += seconds;
                HeartEvent::Rested
            }
            HeartAction::Stop => panic!("the queue is open"),
        };
    }
    assert_eq!(times, vec![0, 30, 60, 90]);
}

#[test]
fn heart_beat_stops_with_the_queue() {
    assert!(matches!(
        heart_step(&"w".to_string(), HeartEvent::Queued(false)),
        HeartAction::Stop
    ));
}

#[test]
fn messages_are_sent_in_order_up_to_the_failed_write() {
    let mut queue = vec![beat("w"), response("a"), beat("w"), response("b"), beat("w")];
    queue.reverse();
    let mut sent = Vec::new();
    let mut action = SendAction::Next;
    loop {
        let event = match action {
            SendAction::Write(message) => {
                sent.push(message);
                SendEvent::Written(sent.len() < 3)
            }
            SendAction::Skip | SendAction::Next => SendEvent::Taken(queue.pop().unwrap()),
            SendAction::End => break,
        };
        action = send_step(event);
    }
    assert_eq!(sent, vec![beat("w"), response("a"), beat("w")]);
    assert_eq!(queue.len(), 2);
}

#[test]
fn responses_answer_the_requests_in_order() {
    let mut queue = vec![beat("w")];
    for (id, pow) in [("a", 1u64), ("b", 2), ("c", 3)] {
        let received = match request() {
            PowMessage::Request(order) => {
                PowMessage::Request(PowRequest { id: id.to_string(), ..order })
            }
            other => other,
        };
        match handle_connection(Some(received)) {
            ConnectionAction::Compute(order) => {
                let mut pows = HashMap::new();
                pows.insert(0u32, pow);
                queue.push(response_message(order.id, pows));
            }
            ConnectionAction::Stop => panic!("a request is to be computed"),
        }
        queue.push(beat("w"));
    }
    let answered: Vec<(String, u64)> = queue
        .into_iter()
        .filter_map(|message| match message {
            PowMessage::Response(response) => Some((response.id, response.ciphers_pows[&0])),
            _ => None,
        })
        .collect();
    let expected = vec![("a".to_string(), 1), ("b".to_string(), 2), ("c".to_string(), 3)];
    assert_eq!(answered, expected);
}
