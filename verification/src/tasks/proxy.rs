//! The proxy: it takes tasks from clients, hands them to workers and answers for their results.

use vstd::prelude::*;
use vstd::string::*;

use crate::messages::codec::{PowMessage, PowRequest, PowRequestView, PowResponse};
use crate::messages::{
    carried_task, named_worker, ServerMessage, ServerSubmitRequest, TaskResponse,
    TaskResponseView, TaskSubmit, TaskSubmitResponse, TaskView, COMPLETED, MISSED, PENDING,
};
use crate::tasks::names::NameTable;
use crate::tasks::queue::{foremost, waits_for_node, waits_under_key, TaskQueue};
use crate::text::{decimal, hex_text, id_of_submission, key_of_node, submission_id, task_key};

verus! {

/// The status of a worker that can take a task.
pub const IDLE: u8 = 1;

/// The status of a worker that has a task.
pub const BUSY: u8 = 2;

/// A worker that has made itself known. `R` is what leads to its connection.
#[derive(Debug, Clone)]
pub struct ServerWorker<R> {
    pub router: R,
    pub status: u8,
}

impl<R> ServerWorker<R> {
    /// A worker that can take a task.
    pub fn new(router: R) -> (worker: Self)
        ensures
            worker == (ServerWorker { router, status: IDLE }),
            worker.status == 1,
    {
        ServerWorker { router, status: IDLE }
    }
}

/// What the proxy knows of its workers and tasks.
pub struct ProxyServer<R> {
    /// The workers, by the names that they gave themselves.
    pub workers: NameTable<ServerWorker<R>>,
    /// The tasks that wait for a worker.
    pub queue: TaskQueue,
    /// When each task that a worker has was sent, in nanoseconds, by the task's key.
    pub pending: NameTable<u128>,
}

/// What the proxy knows, as tables.
#[verifier::ext_equal]
#[verifier::reject_recursive_types(R)]
pub struct ProxyView<R> {
    pub workers: Map<Seq<char>, ServerWorker<R>>,
    pub queue: Map<TaskView, u16>,
    pub pending: Map<Seq<char>, u128>,
}

impl<R> View for ProxyServer<R> {
    type V = ProxyView<R>;

    open spec fn view(&self) -> ProxyView<R> {
        ProxyView { workers: self.workers@, queue: self.queue@, pending: self.pending@ }
    }
}

/// How long a task's result is kept, in seconds, on the network of that name.
pub open spec fn kept_for(network: Seq<char>) -> u64 {
    if network == "testnet"@ {
        600
    } else {
        3600
    }
}

/// How long a task's result is kept, in seconds.
pub fn expiration(network: &String) -> (seconds: u64)
    ensures
        network@ == "mainnet"@ ==> seconds == 60 * 60,
        network@ == "testnet"@ ==> seconds == 10 * 60,
        seconds == kept_for(network@),
        network@ != "testnet"@ ==> seconds == 60 * 60,
{
    proof {
        reveal_strlit("mainnet");
        reveal_strlit("testnet");
        assert("mainnet"@[0] != "testnet"@[0]);
    }
    if network.eq(&String::from_str("mainnet")) {
        60 * 60
    } else if network.eq(&String::from_str("testnet")) {
        10 * 60
    } else {
        60 * 60
    }
}

/// A worker of that name can take a task.
pub open spec fn is_idle<R>(server: ProxyView<R>, name: Seq<char>) -> bool {
    server.workers.contains_key(name) && server.workers[name].status == IDLE
}

/// Some worker can take a task.
pub open spec fn some_idle<R>(server: ProxyView<R>) -> bool {
    exists|name: Seq<char>| #[trigger]
        server.workers.contains_key(name) && server.workers[name].status == IDLE
}

/// The task is known already: a task of its node waits, a result is stored under the identifier
/// of its submission, or a task under that identifier is being worked on.
pub open spec fn is_duplicate<R>(server: ProxyView<R>, task: TaskView, stored: bool) -> bool {
    ||| waits_for_node(server.queue, task.node_id)
    ||| stored
    ||| server.pending.contains_key(submission_id(task.node_id, task.start_nonce, task.end_nonce))
}

/// What became of a submission.
#[derive(Debug)]
pub enum SubmitOutcome {
    /// The task is known already and was ignored.
    Duplicate,
    /// The message is to be sent to the worker that it names.
    Assigned(ServerMessage),
    /// The task waits for a worker.
    Queued,
}

/// `outcome` and `after` are what may become of the submission of `task`; `stored` says whether
/// a result is stored under the identifier of the submission.
pub open spec fn submitted<R>(
    before: ProxyView<R>,
    task: TaskView,
    stored: bool,
    outcome: SubmitOutcome,
    after: ProxyView<R>,
) -> bool {
    if is_duplicate(before, task, stored) {
        &&& outcome is Duplicate
        &&& after == before
    } else if some_idle(before) {
        &&& outcome matches SubmitOutcome::Assigned(message)
        &&& carried_task(message) == task
        &&& named_worker(message) matches Some(name)
        &&& is_idle(before, name)
        &&& after == before
    } else {
        &&& outcome is Queued
        &&& after == ProxyView::<R> { queue: before.queue.insert(task, task.priority), ..before }
    }
}

/// The answer to the question for the result of the task `id`; `stored` is the result that is
/// stored under it.
pub open spec fn result_of<R>(
    server: ProxyView<R>,
    id: Seq<char>,
    stored: Option<TaskResponseView>,
) -> TaskResponseView {
    match stored {
        Some(response) => response,
        None => if waits_under_key(server.queue, id) || server.pending.contains_key(id) {
            TaskResponseView { id, status: PENDING, data: None }
        } else {
            TaskResponseView { id, status: MISSED, data: None }
        },
    }
}

/// What a stored response says, if there is one.
pub open spec fn response_view(response: Option<TaskResponse>) -> Option<TaskResponseView> {
    match response {
        Some(response) => Some(response@),
        None => None,
    }
}

/// The task in the form in which a worker gets it.
pub open spec fn work_order(task: TaskView) -> PowRequestView {
    PowRequestView {
        id: task_key(task.node_id),
        challenge: task.challenge,
        start_nonce: task.start_nonce,
        end_nonce: task.end_nonce,
        difficulty: task.difficulty,
        pow_difficulty: task.pow_difficulty,
        node_id: task.node_id,
        pow_flags: task.pow_flags,
    }
}

/// The workers, with the status of the one called `name` set.
pub open spec fn with_status<R>(
    workers: Map<Seq<char>, ServerWorker<R>>,
    name: Seq<char>,
    status: u8,
) -> Map<Seq<char>, ServerWorker<R>> {
    workers.insert(name, ServerWorker { router: workers[name].router, status })
}

/// The proxy after `task` was sent to a worker at the time `now`; `name` is the worker to be
/// marked busy.
pub open spec fn dispatched<R>(
    before: ProxyView<R>,
    name: Option<Seq<char>>,
    task: TaskView,
    now: u128,
) -> ProxyView<R> {
    ProxyView {
        workers: match name {
            Some(name) => with_status(before.workers, name, BUSY),
            None => before.workers,
        },
        queue: before.queue,
        pending: before.pending.insert(task_key(task.node_id), now),
    }
}

fn set_status<R>(workers: &mut NameTable<ServerWorker<R>>, name: &String, status: u8)
    requires
        old(workers)@.contains_key(name@),
    ensures
        final(workers)@ == with_status(old(workers)@, name@, status),
{
    match workers.remove(name) {
        Some(worker) => {
            workers.insert(name.clone(), ServerWorker { router: worker.router, status });
            assert(workers@ =~= with_status(old(workers)@, name@, status));
        },
        None => {},
    }
}

/// What happens on the connection to a worker.
#[derive(Debug)]
pub enum StreamEvent {
    /// Nothing has come for as long as the proxy waits.
    Silent,
    /// A message has come.
    Message(PowMessage),
    /// The connection has ended, or what came is no message.
    Broken,
}

/// What is to be done for the connection to a worker.
#[derive(Debug)]
pub enum StreamAction {
    Nothing,
    /// The message is to be sent to the worker of this connection.
    Assign(ServerMessage),
    /// The result is to be stored under its own identifier, and the message, if there is one, is
    /// to be sent to the worker of this connection.
    Store(TaskResponse, Option<ServerMessage>),
    /// The connection is no longer to be listened to.
    Close,
}

/// `message` hands over a task that may be taken out of the queue `before`, which leaves `after`;
/// it marks the worker `name` busy. Without a message the queue was empty.
pub open spec fn handed_out(
    before: Map<TaskView, u16>,
    name: Option<Seq<char>>,
    message: Option<ServerMessage>,
    after: Map<TaskView, u16>,
) -> bool {
    match message {
        Some(message) => {
            &&& foremost(before, carried_task(message))
            &&& named_worker(message) == name
            &&& after == before.remove(carried_task(message))
        },
        None => {
            &&& before == Map::<TaskView, u16>::empty()
            &&& after == before
        },
    }
}

/// The message that an action sends.
pub open spec fn sent(action: StreamAction) -> Option<ServerMessage> {
    match action {
        StreamAction::Assign(message) => Some(message),
        StreamAction::Store(_, next) => next,
        _ => None,
    }
}

/// The proxy can go on after `event` on the connection of the worker `name`: a worker that is to
/// be forgotten or marked idle must be known.
pub open spec fn can_handle<R>(server: ProxyView<R>, name: Seq<char>, event: StreamEvent) -> bool {
    match event {
        StreamEvent::Silent | StreamEvent::Broken => server.workers.contains_key(name),
        StreamEvent::Message(PowMessage::Response(_)) => {
            ||| server.queue != Map::<TaskView, u16>::empty()
            ||| server.workers.contains_key(name)
        },
        StreamEvent::Message(_) => true,
    }
}

/// `action`, `name_after` and `after` are what may follow from `event` on the connection, reached
/// by `router`, of the worker `name`.
pub open spec fn streamed<R>(
    before: ProxyView<R>,
    name: Seq<char>,
    event: StreamEvent,
    router: R,
    action: StreamAction,
    name_after: Seq<char>,
    after: ProxyView<R>,
) -> bool {
    match event {
        StreamEvent::Silent | StreamEvent::Broken => {
            &&& action is Close
            &&& name_after == name
            &&& after == ProxyView::<R> { workers: before.workers.remove(name), ..before }
        },
        StreamEvent::Message(PowMessage::Register(register)) => if register.name@ == name {
            &&& action is Nothing
            &&& name_after == name
            &&& after == before
        } else {
            &&& action is Nothing || action is Assign
            &&& name_after == register.name@
            &&& after.workers == before.workers.insert(
                register.name@,
                ServerWorker { router, status: IDLE },
            )
            &&& handed_out(before.queue, Some(register.name@), sent(action), after.queue)
            &&& after.pending == before.pending
        },
        StreamEvent::Message(PowMessage::Request(_)) => {
            &&& action is Nothing
            &&& name_after == name
            &&& after == before
        },
        StreamEvent::Message(PowMessage::Response(response)) => {
            &&& action matches StreamAction::Store(result, next)
            &&& result@ == TaskResponseView {
                id: response.id@,
                status: COMPLETED,
                data: Some(response.ciphers_pows@),
            }
            &&& name_after == name
            &&& after.pending == before.pending.remove(response.id@)
            &&& handed_out(before.queue, None, next, after.queue)
            &&& after.workers == if next is None {
                with_status(before.workers, name, IDLE)
            } else {
                before.workers
            }
        },
    }
}

/// How long the proxy listens to a worker that says nothing, in seconds.
pub const SILENCE_SECONDS: u64 = 300;

/// How long the proxy tries to write to a worker, in milliseconds.
pub const SEND_MILLIS: u64 = 200;

/// How long the proxy waits before it looks for late tasks again, in seconds.
pub const SWEEP_SECONDS: u64 = 30;

/// How long a task may be with a worker before it is given up, in nanoseconds.
pub const GIVE_UP_NANOS: u128 = 600_000_000_000;

/// A task that was sent at `since` is given up at `now`.
pub open spec fn given_up(since: u128, now: u128) -> bool {
    now - since >= GIVE_UP_NANOS
}

/// The tasks that are not given up at `now`.
pub open spec fn still_pending(pending: Map<Seq<char>, u128>, now: u128) -> Map<Seq<char>, u128> {
    Map::new(
        |key: Seq<char>| pending.contains_key(key) && !given_up(pending[key], now),
        |key: Seq<char>| pending[key],
    )
}

impl<R> ProxyServer<R> {
    /// A proxy that knows no worker and no task.
    pub fn new() -> (server: Self)
        ensures
            server@ == (ProxyView::<R> {
                workers: Map::empty(),
                queue: Map::empty(),
                pending: Map::empty(),
            }),
            server.workers@ == Map::<Seq<char>, ServerWorker<R>>::empty(),
            server.queue@ == Map::<TaskView, u16>::empty(),
            server.pending@ == Map::<Seq<char>, u128>::empty(),
    {
        ProxyServer { workers: NameTable::new(), queue: TaskQueue::new(), pending: NameTable::new() }
    }

    fn find_idle(&self) -> (name: Option<String>)
        ensures
            match name {
                Some(name) => is_idle(self@, name@),
                None => !some_idle(self@),
            },
    {
        let length: usize = self.workers.len();
        let ghost names = self.workers.names();
        let mut i: usize = 0;
        while i < length
            invariant
                i <= length,
                length == names.len(),
                names == self.workers.names(),
                names.to_set() == self@.workers.dom(),
                forall|j: int| 0 <= j < i ==> !is_idle(self@, #[trigger] names[j]),
            decreases length - i,
        {
            let (name, worker) = self.workers.at(i);
            if worker.status == IDLE {
                return Some(name.clone());
            }
            i = i + 1;
        }
        assert forall|name: Seq<char>| #[trigger]
            self@.workers.contains_key(name) implies self@.workers[name].status != IDLE by {
            assert(names.to_set().contains(name));
            let j = names.index_of(name);
            assert(!is_idle(self@, names[j]));
        }
        None
    }

    /// Whether the worker that a message is to mark busy is known.
    pub fn can_dispatch(&self, message: &ServerMessage) -> (ready: bool)
        ensures
            ready == (named_worker(*message) matches Some(name) ==> self@.workers.contains_key(
                name,
            )),
            *message matches ServerMessage::ServerSubmitRequest(submit) && (ready <==> (
            submit.worker_name matches Some(name) ==> self.workers@.contains_key(name@))),
    {
        match message {
            ServerMessage::ServerSubmitRequest(submit) => match &submit.worker_name {
                Some(name) => self.workers.contains(name),
                None => true,
            },
        }
    }

    /// Whether the proxy can go on after `event` on the connection of the worker `worker_name`.
    pub fn is_ready(&self, worker_name: &String, event: &StreamEvent) -> (ready: bool)
        ensures
            ready == can_handle(self@, worker_name@, *event),
            *event is Silent || *event is Broken ==> ready == self.workers@.contains_key(
                worker_name@,
            ),
            *event matches StreamEvent::Message(PowMessage::Response(_)) ==> ready == (
            self.queue@ != Map::<TaskView, u16>::empty() || self.workers@.contains_key(
                worker_name@,
            )),
            *event matches StreamEvent::Message(message) ==> (message !is Response ==> ready),
    {
        match event {
            StreamEvent::Silent | StreamEvent::Broken => self.workers.contains(worker_name),
            StreamEvent::Message(PowMessage::Response(_)) => {
                !self.queue.is_empty() || self.workers.contains(worker_name)
            },
            StreamEvent::Message(_) => true,
        }
    }

    /// Sends a task to a worker: marks the worker busy where the message names one, and keeps
    /// the task as pending since `now`. Returns what the worker gets.
    pub fn dispatch(&mut self, message: ServerMessage, now: u128) -> (order: PowRequest)
        requires
            named_worker(message) matches Some(name) ==> old(self)@.workers.contains_key(name),
        ensures
            order@ == work_order(carried_task(message)),
            final(self)@ == dispatched(
                old(self)@,
                named_worker(message),
                carried_task(message),
                now,
            ),
            message matches ServerMessage::ServerSubmitRequest(submit) && {
                &&& order.id@ == hex_text(submit.request.node_id@)
                &&& order.challenge == submit.request.challenge
                &&& order.start_nonce == submit.request.start_nonce
                &&& order.end_nonce == submit.request.end_nonce
                &&& order.difficulty == submit.request.difficulty
                &&& order.pow_difficulty == submit.request.pow_difficulty
                &&& order.node_id == submit.request.node_id
                &&& order.pow_flags == submit.request.pow_flags
                &&& final(self).queue@ == old(self).queue@
                &&& final(self).pending@ == old(self).pending@.insert(
                    hex_text(submit.request.node_id@),
                    now,
                )
                &&& submit.worker_name is None ==> final(self).workers@ == old(self).workers@
                &&& submit.worker_name matches Some(name) ==> final(self).workers@ == old(
                    self,
                ).workers@.insert(
                    name@,
                    ServerWorker { router: old(self).workers@[name@].router, status: 2 },
                )
            },
    {
        match message {
            ServerMessage::ServerSubmitRequest(submit) => {
                match submit.worker_name {
                    Some(name) => set_status(&mut self.workers, &name, BUSY),
                    None => {},
                }
                let task = submit.request;
                let id: String = key_of_node(&task.node_id);
                self.pending.insert(id.clone(), now);
                PowRequest {
                    id,
                    challenge: task.challenge,
                    start_nonce: task.start_nonce,
                    end_nonce: task.end_nonce,
                    difficulty: task.difficulty,
                    pow_difficulty: task.pow_difficulty,
                    node_id: task.node_id,
                    pow_flags: task.pow_flags,
                }
            },
        }
    }

    fn hand_out(&mut self, worker_name: Option<String>) -> (message: Option<ServerMessage>)
        ensures
            handed_out(
                old(self)@.queue,
                match worker_name {
                    Some(name) => Some(name@),
                    None => None,
                },
                message,
                final(self)@.queue,
            ),
            final(self)@.workers == old(self)@.workers,
            final(self)@.pending == old(self)@.pending,
    {
        match self.queue.pop() {
            Some(task) => Some(
                ServerMessage::ServerSubmitRequest(
                    ServerSubmitRequest { worker_name, request: task },
                ),
            ),
            None => None,
        }
    }

    /// Takes note of a worker's response: the task is no longer pending. Returns the result that
    /// is to be stored.
    pub fn record_response(&mut self, response: PowResponse) -> (result: TaskResponse)
        ensures
            result.id@ == response.id@,
            result.status == COMPLETED,
            result.data == Some(response.ciphers_pows),
            result.status == 2,
            final(self).workers@ == old(self).workers@,
            final(self).queue@ == old(self).queue@,
            final(self).pending@ == old(self).pending@.remove(response.id@),
            final(self)@ == (ProxyView::<R> {
                pending: old(self)@.pending.remove(response.id@),
                ..old(self)@
            }),
    {
        let result = TaskResponse::completed(response.id.clone(), response.ciphers_pows);
        self.pending.remove(&response.id);
        result
    }

    /// Handles what happens on the connection, reached by `router`, of the worker `worker_name`,
    /// which a worker that makes itself known replaces by its own name.
    pub fn handle_stream(
        &mut self,
        worker_name: &mut String,
        event: StreamEvent,
        router: R,
    ) -> (action: StreamAction)
        requires
            can_handle(old(self)@, old(worker_name)@, event),
        ensures
            streamed(
                old(self)@,
                old(worker_name)@,
                event,
                router,
                action,
                final(worker_name)@,
                final(self)@,
            ),
            event is Silent || event is Broken ==> {
                &&& action is Close
                &&& final(worker_name)@ == old(worker_name)@
                &&& final(self).workers@ == old(self).workers@.remove(old(worker_name)@)
                &&& final(self).queue@ == old(self).queue@
                &&& final(self).pending@ == old(self).pending@
            },
            (event matches StreamEvent::Message(PowMessage::Request(_)) || (
            event matches StreamEvent::Message(PowMessage::Register(register)) && register.name@
                == old(worker_name)@)) ==> {
                &&& action is Nothing
                &&& final(worker_name)@ == old(worker_name)@
                &&& final(self).workers@ == old(self).workers@
                &&& final(self).queue@ == old(self).queue@
                &&& final(self).pending@ == old(self).pending@
            },
            event matches StreamEvent::Message(PowMessage::Register(register)) ==> (register.name@
                != old(worker_name)@ ==> {
                &&& final(worker_name)@ == register.name@
                &&& final(self).workers@ == old(self).workers@.insert(
                    register.name@,
                    ServerWorker { router, status: 1 },
                )
                &&& final(self).pending@ == old(self).pending@
                &&& old(self).queue@ == Map::<TaskView, u16>::empty() ==> action is Nothing
                    && final(self).queue@ == old(self).queue@
                &&& old(self).queue@ != Map::<TaskView, u16>::empty() ==> {
                    &&& action matches StreamAction::Assign(
                        ServerMessage::ServerSubmitRequest(submit),
                    )
                    &&& submit.worker_name matches Some(name)
                    &&& name@ == register.name@
                    &&& old(self).queue@.contains_key(submit.request@)
                    &&& forall|other: TaskView| #[trigger]
                        old(self).queue@.contains_key(other) ==> old(self).queue@[submit.request@]
                            <= old(self).queue@[other]
                    &&& final(self).queue@ == old(self).queue@.remove(submit.request@)
                }
            }),
            event matches StreamEvent::Message(PowMessage::Response(response)) ==> {
                &&& action matches StreamAction::Store(result, next)
                &&& result.id@ == response.id@
                &&& result.status == 2
                &&& result.data == Some(response.ciphers_pows)
                &&& final(worker_name)@ == old(worker_name)@
                &&& final(self).pending@ == old(self).pending@.remove(response.id@)
                &&& old(self).queue@ == Map::<TaskView, u16>::empty() ==> {
                    &&& next is None
                    &&& final(self).queue@ == old(self).queue@
                    &&& final(self).workers@ == old(self).workers@.insert(
                        old(worker_name)@,
                        ServerWorker {
                            router: old(self).workers@[old(worker_name)@].router,
                            status: 1,
                        },
                    )
                }
                &&& old(self).queue@ != Map::<TaskView, u16>::empty() ==> {
                    &&& next matches Some(ServerMessage::ServerSubmitRequest(submit))
                    &&& submit.worker_name is None
                    &&& old(self).queue@.contains_key(submit.request@)
                    &&& forall|other: TaskView| #[trigger]
                        old(self).queue@.contains_key(other) ==> old(self).queue@[submit.request@]
                            <= old(self).queue@[other]
                    &&& final(self).queue@ == old(self).queue@.remove(submit.request@)
                    &&& final(self).workers@ == old(self).workers@
                }
            },
    {
        match event {
            StreamEvent::Silent | StreamEvent::Broken => {
                self.workers.remove(&*worker_name);
                StreamAction::Close
            },
            StreamEvent::Message(message) => match message {
                PowMessage::Register(register) => {
                    if (*worker_name).eq(&register.name) {
                        StreamAction::Nothing
                    } else {
                        *worker_name = register.name;
                        let next = self.hand_out(Some(worker_name.clone()));
                        self.workers.insert(worker_name.clone(), ServerWorker::new(router));
                        match next {
                            Some(message) => StreamAction::Assign(message),
                            None => StreamAction::Nothing,
                        }
                    }
                },
                PowMessage::Request(_) => StreamAction::Nothing,
                PowMessage::Response(response) => {
                    let result = self.record_response(response);
                    let next = self.hand_out(None);
                    if next.is_none() {
                        set_status(&mut self.workers, &*worker_name, IDLE);
                    }
                    StreamAction::Store(result, next)
                },
            },
        }
    }

    /// Gives up the tasks that have been with a worker for too long.
    pub fn expire_pending(&mut self, now: u128)
        ensures
            final(self)@ == (ProxyView::<R> {
                pending: still_pending(old(self)@.pending, now),
                ..old(self)@
            }),
            final(self).workers@ == old(self).workers@,
            final(self).queue@ == old(self).queue@,
            forall|key: Seq<char>| #[trigger]
                final(self).pending@.contains_key(key) <==> old(self).pending@.contains_key(key)
                    && now - old(self).pending@[key] < 600_000_000_000,
            forall|key: Seq<char>| #[trigger]
                final(self).pending@.contains_key(key) ==> final(self).pending@[key] == old(
                    self,
                ).pending@[key],
    {
        let length: usize = self.pending.len();
        let ghost names = self.pending.names();
        let ghost before = self@.pending;
        let mut late: Vec<String> = Vec::new();
        let mut i: usize = 0;
        while i < length
            invariant
                i <= length,
                length == names.len(),
                names == self.pending.names(),
                names.to_set() == before.dom(),
                before == self@.pending,
                self@ == old(self)@,
                forall|j: int|
                    0 <= j < late@.len() ==> before.contains_key((#[trigger] late@[j])@)
                        && given_up(before[late@[j]@], now),
                forall|j: int|
                    0 <= j < i && given_up(before[#[trigger] names[j]], now) ==> exists|k: int|
                        0 <= k < late@.len() && (#[trigger] late@[k])@ == names[j],
            decreases length - i,
        {
            let (key, since) = self.pending.at(i);
            if now >= *since && now - *since >= GIVE_UP_NANOS {
                let ghost listed = late@;
                late.push(key.clone());
                assert forall|j: int|
                    0 <= j < i + 1 && given_up(before[#[trigger] names[j]], now) implies exists|
                    k: int,
                |
                    0 <= k < late@.len() && (#[trigger] late@[k])@ == names[j] by {
                    if j < i {
                        let k = choose|k: int|
                            0 <= k < listed.len() && (#[trigger] listed[k])@ == names[j];
                        assert(late@[k] == listed[k]);
                    } else {
                        assert(late@[listed.len() as int]@ == names[j]);
                    }
                }
            }
            i = i + 1;
        }
        let mut n: usize = 0;
        while n < late.len()
            invariant
                n <= late@.len(),
                self@.workers == old(self)@.workers,
                self@.queue == old(self)@.queue,
                forall|key: Seq<char>| #[trigger]
                    self@.pending.contains_key(key) <==> before.contains_key(key) && !(exists|
                        k: int,
                    |
                        0 <= k < n && (#[trigger] late@[k])@ == key),
                forall|key: Seq<char>| #[trigger]
                    self@.pending.contains_key(key) ==> self@.pending[key] == before[key],
            decreases late@.len() - n,
        {
            let ghost shrinking = self@.pending;
            self.pending.remove(&late[n]);
            assert forall|key: Seq<char>| #[trigger]
                self@.pending.contains_key(key) <==> before.contains_key(key) && !(exists|k: int|
                    0 <= k < n + 1 && (#[trigger] late@[k])@ == key) by {
                assert(shrinking.contains_key(key) <==> before.contains_key(key) && !(exists|k: int|
                    0 <= k < n && (#[trigger] late@[k])@ == key));
                if shrinking.contains_key(key) && late@[n as int]@ != key {
                    if exists|k: int| 0 <= k < n + 1 && (#[trigger] late@[k])@ == key {
                        let k = choose|k: int| 0 <= k < n + 1 && (#[trigger] late@[k])@ == key;
                        assert(k < n);
                    }
                }
                if late@[n as int]@ == key {
                    assert(exists|k: int| 0 <= k < n + 1 && (#[trigger] late@[k])@ == key);
                }
            }
            n = n + 1;
        }
        assert forall|key: Seq<char>| #[trigger]
            self@.pending.contains_key(key) <==> still_pending(before, now).contains_key(key) by {
            if before.contains_key(key) && given_up(before[key], now) {
                assert(names.to_set().contains(key));
                let j = names.index_of(key);
                assert(given_up(before[names[j]], now));
            }
        }
        assert(self@.pending =~= still_pending(before, now));
    }

    /// How many workers are known, and how many tasks wait.
    pub fn census(&self) -> (counts: (usize, usize))
        ensures
            self@.workers.dom().finite(),
            self@.queue.dom().finite(),
            counts.0 == self@.workers.len(),
            counts.1 == self@.queue.len(),
            counts.0 == self.workers@.len(),
            counts.1 == self.queue@.len(),
    {
        (self.workers.len(), self.queue.len())
    }
}

/// The answer to the question whether the proxy is alive.
pub fn health_handler() -> (alive: bool)
    ensures
        alive,
{
    true
}

/// Handles the submission of a task. `stored` says whether a result is stored under the
/// identifier of the submission.
pub fn submit_task_handler<R>(
    shared: &mut ProxyServer<R>,
    request: TaskSubmit,
    stored: bool,
) -> (answer: (TaskSubmitResponse, SubmitOutcome))
    ensures
        answer.0.id@ == submission_id(request@.node_id, request@.start_nonce, request@.end_nonce),
        submitted(old(shared)@, request@, stored, answer.1, final(shared)@),
        answer.0.id@ == hex_text(request.node_id@) + seq!['-'] + decimal(request.start_nonce as nat)
            + seq!['-'] + decimal(request.end_nonce as nat),
        answer.1 is Duplicate <==> {
            ||| exists|task: TaskView| #[trigger]
                old(shared).queue@.contains_key(task) && task.node_id == request.node_id@
            ||| stored
            ||| old(shared).pending@.contains_key(answer.0.id@)
        },
        answer.1 is Assigned ==> exists|name: Seq<char>| #[trigger]
            old(shared).workers@.contains_key(name) && old(shared).workers@[name].status == 1,
        answer.1 is Queued ==> forall|name: Seq<char>| #[trigger]
            old(shared).workers@.contains_key(name) ==> old(shared).workers@[name].status != 1,
        answer.1 matches SubmitOutcome::Assigned(ServerMessage::ServerSubmitRequest(submit)) ==> {
            &&& submit.request == request
            &&& submit.worker_name matches Some(name)
            &&& old(shared).workers@.contains_key(name@)
            &&& old(shared).workers@[name@].status == 1
        },
        final(shared).workers@ == old(shared).workers@,
        final(shared).pending@ == old(shared).pending@,
        final(shared).queue@ == if answer.1 is Queued {
            old(shared).queue@.insert(request@, request.priority)
        } else {
            old(shared).queue@
        },
{
    let id: String = id_of_submission(&request.node_id, request.start_nonce, request.end_nonce);
    if shared.queue.holds_node(&request.node_id) || stored || shared.pending.contains(&id) {
        return (TaskSubmitResponse { id }, SubmitOutcome::Duplicate);
    }
    match shared.find_idle() {
        Some(name) => {
            let message = ServerMessage::ServerSubmitRequest(
                ServerSubmitRequest { worker_name: Some(name), request },
            );
            (TaskSubmitResponse { id }, SubmitOutcome::Assigned(message))
        },
        None => {
            shared.queue.push(request);
            (TaskSubmitResponse { id }, SubmitOutcome::Queued)
        },
    }
}

/// Answers the question for a task's result. `completed` is the result that is stored under the
/// task's identifier.
pub fn task_result_handler<R>(
    shared: &ProxyServer<R>,
    request: TaskSubmitResponse,
    completed: Option<TaskResponse>,
) -> (answer: TaskResponse)
    ensures
        answer@ == result_of(shared@, request.id@, response_view(completed)),
        completed is Some ==> answer == completed->0,
        completed is None ==> {
            &&& answer.id@ == request.id@
            &&& answer.data is None
            &&& answer.status == 1 || answer.status == 3
            &&& answer.status == 1 <==> {
                ||| exists|task: TaskView| #[trigger]
                    shared.queue@.contains_key(task) && hex_text(task.node_id) == request.id@
                ||| shared.pending@.contains_key(request.id@)
            }
        },
{
    match completed {
        Some(response) => response,
        None => {
            if shared.queue.holds_key(&request.id) || shared.pending.contains(&request.id) {
                TaskResponse::init(request.id)
            } else {
                TaskResponse::missed(request.id)
            }
        },
    }
}

} // verus!
