//! The messages of the service.

pub mod buffer;
pub mod codec;

use std::collections::HashMap;
use vstd::prelude::*;

verus! {

/// A client's request for the proofs of work of a node.
#[derive(Debug, PartialEq, Eq, Hash)]
pub struct TaskSubmit {
    /// The lower, the sooner the task is handed out.
    pub priority: u16,
    pub challenge: [u8; 32],
    pub start_nonce: u32,
    pub end_nonce: u32,
    pub difficulty: u64,
    pub pow_difficulty: [u8; 32],
    pub node_id: [u8; 32],
    pub pow_flags: String,
}

/// What a `TaskSubmit` says.
#[verifier::ext_equal]
pub struct TaskView {
    pub priority: u16,
    pub challenge: Seq<u8>,
    pub start_nonce: u32,
    pub end_nonce: u32,
    pub difficulty: u64,
    pub pow_difficulty: Seq<u8>,
    pub node_id: Seq<u8>,
    pub pow_flags: Seq<char>,
}

impl View for TaskSubmit {
    type V = TaskView;

    open spec fn view(&self) -> TaskView {
        TaskView {
            priority: self.priority,
            challenge: self.challenge@,
            start_nonce: self.start_nonce,
            end_nonce: self.end_nonce,
            difficulty: self.difficulty,
            pow_difficulty: self.pow_difficulty@,
            node_id: self.node_id@,
            pow_flags: self.pow_flags@,
        }
    }
}

/// What a `TaskSubmit` says are all of its fields.
pub proof fn task_says_all_its_fields(task: TaskSubmit)
    ensures
        task@.priority == task.priority,
        task@.challenge == task.challenge@,
        task@.start_nonce == task.start_nonce,
        task@.end_nonce == task.end_nonce,
        task@.difficulty == task.difficulty,
        task@.pow_difficulty == task.pow_difficulty@,
        task@.node_id == task.node_id@,
        task@.pow_flags == task.pow_flags@,
{
}

impl Clone for TaskSubmit {
    fn clone(&self) -> (copy: Self)
        ensures
            copy == *self,
    {
        TaskSubmit {
            priority: self.priority,
            challenge: self.challenge,
            start_nonce: self.start_nonce,
            end_nonce: self.end_nonce,
            difficulty: self.difficulty,
            pow_difficulty: self.pow_difficulty,
            node_id: self.node_id,
            pow_flags: self.pow_flags.clone(),
        }
    }
}

/// The answer to a submission, and the question for a task's result.
#[derive(Debug, PartialEq)]
pub struct TaskSubmitResponse {
    pub id: String,
}

impl Clone for TaskSubmitResponse {
    fn clone(&self) -> (copy: Self)
        ensures
            copy == *self,
    {
        TaskSubmitResponse { id: self.id.clone() }
    }
}

/// The status of a task that waits or is being worked on.
pub const PENDING: u8 = 1;

/// The status of a task whose proofs of work are there.
pub const COMPLETED: u8 = 2;

/// The status of a task that the service does not know.
pub const MISSED: u8 = 3;

/// The answer to the question for a task's result.
#[derive(Debug, Clone, PartialEq)]
pub struct TaskResponse {
    pub id: String,
    pub status: u8,
    pub data: Option<HashMap<u32, u64>>,
}

/// What a `TaskResponse` says.
#[verifier::ext_equal]
pub struct TaskResponseView {
    pub id: Seq<char>,
    pub status: u8,
    pub data: Option<Map<u32, u64>>,
}

/// What a map of proofs of work says, if there is one.
pub open spec fn pows_view(data: Option<HashMap<u32, u64>>) -> Option<Map<u32, u64>> {
    match data {
        Some(pows) => Some(pows@),
        None => None,
    }
}

impl View for TaskResponse {
    type V = TaskResponseView;

    open spec fn view(&self) -> TaskResponseView {
        TaskResponseView { id: self.id@, status: self.status, data: pows_view(self.data) }
    }
}

/// What a `TaskResponse` says are all of its fields, and its proofs of work as a map.
pub proof fn response_says_all_its_fields(response: TaskResponse)
    ensures
        response@.id == response.id@,
        response@.status == response.status,
        response@.data is Some <==> response.data is Some,
        response.data matches Some(pows) ==> response@.data == Some(pows@),
{
}

impl TaskResponse {
    /// Says that the task `id` waits or is being worked on.
    pub fn init(id: String) -> (response: Self)
        ensures
            response.id == id,
            response.status == PENDING,
            response.status == 1,
            response.data is None,
    {
        TaskResponse { id, status: PENDING, data: None }
    }

    /// Says that the task `id` is completed, with these proofs of work.
    pub fn completed(id: String, data: HashMap<u32, u64>) -> (response: Self)
        ensures
            response.id == id,
            response.status == COMPLETED,
            response.status == 2,
            response.data == Some(data),
    {
        TaskResponse { id, status: COMPLETED, data: Some(data) }
    }

    /// Says that the service does not know the task `id`.
    pub fn missed(id: String) -> (response: Self)
        ensures
            response.id == id,
            response.status == MISSED,
            response.status == 3,
            response.data is None,
    {
        TaskResponse { id, status: MISSED, data: None }
    }
}

/// A task on its way to a worker.
#[derive(Debug, Clone, PartialEq)]
pub struct ServerSubmitRequest {
    /// The worker to be marked busy, where it is not busy already.
    pub worker_name: Option<String>,
    pub request: TaskSubmit,
}

/// What the proxy says to the side of a connection that writes to the worker.
#[derive(Debug, Clone, PartialEq)]
pub enum ServerMessage {
    ServerSubmitRequest(ServerSubmitRequest),
}

/// The worker that a message marks busy, if it names one.
pub open spec fn named_worker(message: ServerMessage) -> Option<Seq<char>> {
    match message {
        ServerMessage::ServerSubmitRequest(request) => match request.worker_name {
            Some(name) => Some(name@),
            None => None,
        },
    }
}

/// The task that a message carries.
pub open spec fn carried_task(message: ServerMessage) -> TaskView {
    match message {
        ServerMessage::ServerSubmitRequest(request) => request.request@,
    }
}

/// A message carries the task that was put into it, and marks the worker busy that it names.
pub proof fn message_carries_its_task(submit: ServerSubmitRequest)
    ensures
        carried_task(ServerMessage::ServerSubmitRequest(submit)) == submit.request@,
        submit.worker_name matches Some(name) ==> named_worker(
            ServerMessage::ServerSubmitRequest(submit),
        ) == Some(name@),
        submit.worker_name is None ==> named_worker(ServerMessage::ServerSubmitRequest(submit))
            is None,
{
}

} // verus!
