//! What holds of the proxy over several steps.

use vstd::prelude::*;

use crate::messages::codec::{PowMessage, PowResponse, Register};
use crate::messages::{
    carried_task, named_worker, ServerMessage, ServerSubmitRequest, TaskResponseView, TaskView,
    COMPLETED, MISSED, PENDING,
};
use crate::tasks::proxy::{
    can_handle, dispatched, given_up, is_duplicate, is_idle, kept_for, result_of, sent,
    still_pending, streamed, submitted, work_order, ProxyView, StreamAction, StreamEvent,
    SubmitOutcome, BUSY, IDLE, SEND_MILLIS, SILENCE_SECONDS, SWEEP_SECONDS,
};
use crate::tasks::queue::{waits_for_node, waits_under_key};
use crate::text::{submission_id, submission_id_is_no_task_key, task_key, task_key_is_injective};

verus! {

/// Every worker is idle or busy.
pub open spec fn workers_in_order<R>(server: ProxyView<R>) -> bool {
    forall|name: Seq<char>| #[trigger]
        server.workers.contains_key(name) ==> server.workers[name].status == IDLE
            || server.workers[name].status == BUSY
}

/// At most one task of each node waits, and each with the priority that it asks for.
pub open spec fn queue_in_order<R>(server: ProxyView<R>) -> bool {
    &&& forall|a: TaskView, b: TaskView|
        #![trigger server.queue.contains_key(a), server.queue.contains_key(b)]
        server.queue.contains_key(a) && server.queue.contains_key(b) && a.node_id == b.node_id
            ==> a == b
    &&& forall|task: TaskView| #[trigger]
        server.queue.contains_key(task) ==> server.queue[task] == task.priority
}

/// `key` is the key of some node's task.
pub open spec fn is_task_key(key: Seq<char>) -> bool {
    exists|node_id: Seq<u8>| key == #[trigger] task_key(node_id)
}

/// What is pending is so under the key of a task.
pub open spec fn pending_in_order<R>(server: ProxyView<R>) -> bool {
    forall|key: Seq<char>| #[trigger] server.pending.contains_key(key) ==> is_task_key(key)
}

/// What every step of the proxy keeps.
pub open spec fn in_order<R>(server: ProxyView<R>) -> bool {
    &&& workers_in_order(server)
    &&& queue_in_order(server)
    &&& pending_in_order(server)
}

/// A new proxy is in order.
pub proof fn new_proxy_is_in_order<R>(server: ProxyView<R>)
    requires
        server == (ProxyView::<R> {
            workers: Map::empty(),
            queue: Map::empty(),
            pending: Map::empty(),
        }),
    ensures
        in_order(server),
{
}

/// A submission keeps the proxy in order.
pub proof fn submission_keeps_order<R>(
    before: ProxyView<R>,
    task: TaskView,
    stored: bool,
    outcome: SubmitOutcome,
    after: ProxyView<R>,
)
    requires
        in_order(before),
        submitted(before, task, stored, outcome, after),
    ensures
        in_order(after),
{
}

/// Sending a task to a worker keeps the proxy in order.
pub proof fn dispatch_keeps_order<R>(
    before: ProxyView<R>,
    name: Option<Seq<char>>,
    task: TaskView,
    now: u128,
)
    requires
        in_order(before),
    ensures
        in_order(dispatched(before, name, task, now)),
{
    let after = dispatched(before, name, task, now);
    assert forall|key: Seq<char>| #[trigger]
        after.pending.contains_key(key) implies is_task_key(key) by {
        if key != task_key(task.node_id) {
            assert(before.pending.contains_key(key));
        }
    }
}

/// What happens on the connection to a worker keeps the proxy in order.
pub proof fn stream_keeps_order<R>(
    before: ProxyView<R>,
    name: Seq<char>,
    event: StreamEvent,
    router: R,
    action: StreamAction,
    name_after: Seq<char>,
    after: ProxyView<R>,
)
    requires
        in_order(before),
        can_handle(before, name, event),
        streamed(before, name, event, router, action, name_after, after),
    ensures
        in_order(after),
{
    assert forall|task: TaskView| #[trigger]
        after.queue.contains_key(task) implies before.queue.contains_key(task) && after.queue[task]
        == before.queue[task] by {}
    assert forall|key: Seq<char>| #[trigger]
        after.pending.contains_key(key) implies is_task_key(key) by {
        assert(before.pending.contains_key(key));
    }
    assert forall|n: Seq<char>| #[trigger] after.workers.contains_key(n) implies
        after.workers[n].status == IDLE || after.workers[n].status == BUSY by {
        assert(before.workers.contains_key(n) || after.workers[n].status == IDLE);
    }
}

/// Giving up late tasks keeps the proxy in order.
pub proof fn expiry_keeps_order<R>(before: ProxyView<R>, now: u128)
    requires
        in_order(before),
    ensures
        in_order(
            (ProxyView::<R> { pending: still_pending(before.pending, now), ..before }),
        ),
{
    assert forall|key: Seq<char>| #[trigger]
        still_pending(before.pending, now).contains_key(key) implies is_task_key(key) by {
        assert(before.pending.contains_key(key));
    }
}

/// `after` may be the proxy after one step from `before`.
pub open spec fn may_become<R>(before: ProxyView<R>, after: ProxyView<R>) -> bool {
    ||| exists|task: TaskView, stored: bool, outcome: SubmitOutcome|
        submitted(before, task, stored, outcome, after)
    ||| exists|name: Option<Seq<char>>, task: TaskView, now: u128|
        after == #[trigger] dispatched(before, name, task, now)
    ||| exists|
        name: Seq<char>,
        event: StreamEvent,
        router: R,
        action: StreamAction,
        name_after: Seq<char>,
    |
        can_handle(before, name, event) && #[trigger] streamed(
            before,
            name,
            event,
            router,
            action,
            name_after,
            after,
        )
    ||| exists|now: u128|
        after == (ProxyView::<R> {
            pending: #[trigger] still_pending(before.pending, now),
            ..before
        })
}

/// Whatever happens to a proxy, and in whatever order, it stays in order.
pub proof fn proxy_stays_in_order<R>(history: Seq<ProxyView<R>>)
    requires
        history.len() > 0,
        in_order(history.first()),
        forall|i: int|
            0 < i < history.len() ==> may_become(history[i - 1], #[trigger] history[i]),
    ensures
        forall|i: int| 0 <= i < history.len() ==> in_order(#[trigger] history[i]),
    decreases history.len(),
{
    if history.len() > 1 {
        let earlier = history.drop_last();
        assert forall|i: int| 0 < i < earlier.len() implies may_become(
            earlier[i - 1],
            #[trigger] earlier[i],
        ) by {
            assert(earlier[i] == history[i]);
        }
        proxy_stays_in_order(earlier);
        let last = history.len() - 1;
        let before = history[last - 1];
        let after = history[last];
        assert(before == earlier[last - 1]);
        assert(may_become(before, after));
        lemma_step_keeps_order(before, after);
        assert forall|i: int| 0 <= i < history.len() implies in_order(#[trigger] history[i]) by {
            if i < last {
                assert(history[i] == earlier[i]);
            }
        }
    }
}

proof fn lemma_step_keeps_order<R>(before: ProxyView<R>, after: ProxyView<R>)
    requires
        in_order(before),
        may_become(before, after),
    ensures
        in_order(after),
{
    if exists|task: TaskView, stored: bool, outcome: SubmitOutcome|
        submitted(before, task, stored, outcome, after) {
        let (task, stored, outcome) = choose|task: TaskView, stored: bool, outcome: SubmitOutcome|
            submitted(before, task, stored, outcome, after);
        submission_keeps_order(before, task, stored, outcome, after);
    } else if exists|name: Option<Seq<char>>, task: TaskView, now: u128|
        after == #[trigger] dispatched(before, name, task, now) {
        let (name, task, now) = choose|name: Option<Seq<char>>, task: TaskView, now: u128|
            after == #[trigger] dispatched(before, name, task, now);
        dispatch_keeps_order(before, name, task, now);
    } else if exists|now: u128|
        after == (ProxyView::<R> {
            pending: #[trigger] still_pending(before.pending, now),
            ..before
        }) {
        let now = choose|now: u128|
            after == (ProxyView::<R> {
                pending: #[trigger] still_pending(before.pending, now),
                ..before
            });
        expiry_keeps_order(before, now);
    } else {
        let (name, event, router, action, name_after) = choose|
            name: Seq<char>,
            event: StreamEvent,
            router: R,
            action: StreamAction,
            name_after: Seq<char>,
        |
            can_handle(before, name, event) && #[trigger] streamed(
                before,
                name,
                event,
                router,
                action,
                name_after,
                after,
            );
        stream_keeps_order(before, name, event, router, action, name_after, after);
    }
}

/// Once a task waits, every further submission for its node is a duplicate, changes nothing and
/// is handed to no worker.
pub proof fn waiting_node_is_not_queued_twice<R>(
    before: ProxyView<R>,
    task: TaskView,
    stored: bool,
    after: ProxyView<R>,
    again: TaskView,
    stored_again: bool,
    outcome: SubmitOutcome,
    at_last: ProxyView<R>,
)
    requires
        submitted(before, task, stored, SubmitOutcome::Queued, after),
        again.node_id == task.node_id,
        submitted(after, again, stored_again, outcome, at_last),
    ensures
        outcome is Duplicate,
        at_last == after,
{
    assert(after.queue.contains_key(task));
    assert(waits_for_node(after.queue, again.node_id));
}

/// A submission that is no duplicate is not lost: its task goes out with the message, or it
/// waits, and with it every task that waited before.
pub proof fn submitted_task_is_not_lost<R>(
    before: ProxyView<R>,
    task: TaskView,
    stored: bool,
    outcome: SubmitOutcome,
    after: ProxyView<R>,
)
    requires
        submitted(before, task, stored, outcome, after),
        !is_duplicate(before, task, stored),
    ensures
        after.queue.contains_key(task) || (outcome matches SubmitOutcome::Assigned(message)
            && carried_task(message) == task),
        forall|other: TaskView|
            before.queue.contains_key(other) ==> #[trigger] after.queue.contains_key(other),
{
}

/// A task leaves the queue only with a message that carries it, and then it has left.
pub proof fn waiting_task_leaves_with_a_message<R>(
    before: ProxyView<R>,
    name: Seq<char>,
    event: StreamEvent,
    router: R,
    action: StreamAction,
    name_after: Seq<char>,
    after: ProxyView<R>,
    task: TaskView,
)
    requires
        can_handle(before, name, event),
        streamed(before, name, event, router, action, name_after, after),
        before.queue.contains_key(task),
    ensures
        after.queue.contains_key(task) <==> !(sent(action) matches Some(message) && carried_task(
            message,
        ) == task),
{
}

/// While a task waits, the question with its key is answered that it is pending, unless a result
/// is stored.
pub proof fn queued_task_is_pending<R>(
    before: ProxyView<R>,
    task: TaskView,
    stored: bool,
    after: ProxyView<R>,
)
    requires
        submitted(before, task, stored, SubmitOutcome::Queued, after),
    ensures
        result_of(after, task_key(task.node_id), None) == (TaskResponseView {
            id: task_key(task.node_id),
            status: PENDING,
            data: None,
        }),
{
    assert(after.queue.contains_key(task));
    assert(waits_under_key(after.queue, task_key(task.node_id)));
}

/// Once a task has been sent to a worker, the question with its key is answered that it is
/// pending, unless a result is stored.
pub proof fn dispatched_task_is_pending<R>(
    before: ProxyView<R>,
    name: Option<Seq<char>>,
    task: TaskView,
    now: u128,
)
    ensures
        result_of(dispatched(before, name, task, now), task_key(task.node_id), None) == (
        TaskResponseView { id: task_key(task.node_id), status: PENDING, data: None }),
{
}

/// A worker to which a task has been sent in its name is not idle, so that no submission is
/// assigned to it.
pub proof fn dispatched_worker_is_not_idle<R>(
    before: ProxyView<R>,
    name: Seq<char>,
    task: TaskView,
    now: u128,
)
    ensures
        !is_idle(dispatched(before, Some(name), task, now), name),
{
}

/// The result of a worker's response, once stored, is what the question with the task's
/// identifier is answered; the task is no longer pending.
pub proof fn stored_result_is_answered<R>(
    before: ProxyView<R>,
    name: Seq<char>,
    response: PowResponse,
    router: R,
    action: StreamAction,
    name_after: Seq<char>,
    after: ProxyView<R>,
)
    requires
        streamed(
            before,
            name,
            StreamEvent::Message(PowMessage::Response(response)),
            router,
            action,
            name_after,
            after,
        ),
    ensures
        !after.pending.contains_key(response.id@),
        action matches StreamAction::Store(result, _) && result_of(
            after,
            response.id@,
            Some(result@),
        ) == (TaskResponseView {
            id: response.id@,
            status: COMPLETED,
            data: Some(response.ciphers_pows@),
        }),
{
}

/// A task that was sent to a worker and answered by it is settled: the worker answers under the
/// identifier that it got, which is the key under which the task was kept as pending.
pub proof fn answered_task_is_settled<R>(
    before: ProxyView<R>,
    name: Seq<char>,
    task: TaskView,
    response: PowResponse,
    router: R,
    action: StreamAction,
    name_after: Seq<char>,
    after: ProxyView<R>,
)
    requires
        response.id@ == work_order(task).id,
        streamed(
            before,
            name,
            StreamEvent::Message(PowMessage::Response(response)),
            router,
            action,
            name_after,
            after,
        ),
    ensures
        !after.pending.contains_key(task_key(task.node_id)),
        forall|key: Seq<char>|
            key != task_key(task.node_id) && before.pending.contains_key(key)
                ==> #[trigger] after.pending.contains_key(key) && after.pending[key]
                == before.pending[key],
        action matches StreamAction::Store(result, _) && result@.id == task_key(task.node_id),
{
}

/// A worker that responds has no task left only if none waits: it gets the next one, or it is
/// idle.
pub proof fn responding_worker_gets_the_next_task<R>(
    before: ProxyView<R>,
    name: Seq<char>,
    response: PowResponse,
    router: R,
    action: StreamAction,
    name_after: Seq<char>,
    after: ProxyView<R>,
)
    requires
        streamed(
            before,
            name,
            StreamEvent::Message(PowMessage::Response(response)),
            router,
            action,
            name_after,
            after,
        ),
    ensures
        sent(action) is None <==> before.queue == Map::<TaskView, u16>::empty(),
        sent(action) is None ==> is_idle(after, name),
{
    if let Some(message) = sent(action) {
        assert(before.queue.contains_key(carried_task(message)));
    }
}

/// A task that was given up, that does not wait and has no stored result, is answered as missed.
pub proof fn given_up_task_is_missed<R>(before: ProxyView<R>, key: Seq<char>, now: u128)
    requires
        before.pending.contains_key(key) ==> given_up(before.pending[key], now),
        !waits_under_key(before.queue, key),
    ensures
        result_of(
            (ProxyView::<R> { pending: still_pending(before.pending, now), ..before }),
            key,
            None,
        ) == (TaskResponseView { id: key, status: MISSED, data: None }),
{
}

/// A task that is not given up stays pending.
pub proof fn recent_task_stays_pending<R>(before: ProxyView<R>, key: Seq<char>, now: u128)
    requires
        before.pending.contains_key(key),
        !given_up(before.pending[key], now),
    ensures
        still_pending(before.pending, now).contains_key(key),
        still_pending(before.pending, now)[key] == before.pending[key],
{
}

/// Under the identifier of a submission nothing waits and nothing is pending: the question with
/// it is answered from the stored results alone, and a submission is a duplicate exactly if a
/// task of its node waits or a result is stored.
pub proof fn submission_id_names_only_stored_results<R>(server: ProxyView<R>, task: TaskView)
    requires
        in_order(server),
    ensures
        ({
            let id = submission_id(task.node_id, task.start_nonce, task.end_nonce);
            result_of(server, id, None) == (TaskResponseView { id, status: MISSED, data: None })
        }),
        forall|stored: bool| #[trigger]
            is_duplicate(server, task, stored) == (waits_for_node(server.queue, task.node_id)
                || stored),
{
    let id = submission_id(task.node_id, task.start_nonce, task.end_nonce);
    if is_task_key(id) {
        let node_id = choose|node_id: Seq<u8>| id == #[trigger] task_key(node_id);
        submission_id_is_no_task_key(task.node_id, task.start_nonce, task.end_nonce, node_id);
    }
    if waits_under_key(server.queue, id) {
        let other = choose|other: TaskView| #[trigger]
            server.queue.contains_key(other) && task_key(other.node_id) == id;
        submission_id_is_no_task_key(
            task.node_id,
            task.start_nonce,
            task.end_nonce,
            other.node_id,
        );
    }
}

/// A task waits under the key of a node exactly if a task of that node waits.
pub proof fn key_and_node_agree<R>(server: ProxyView<R>, node_id: Seq<u8>)
    ensures
        waits_under_key(server.queue, task_key(node_id)) <==> waits_for_node(
            server.queue,
            node_id,
        ),
{
    if waits_under_key(server.queue, task_key(node_id)) {
        let task = choose|task: TaskView| #[trigger]
            server.queue.contains_key(task) && task_key(task.node_id) == task_key(node_id);
        task_key_is_injective(task.node_id, node_id);
    }
    if waits_for_node(server.queue, node_id) {
        let task = choose|task: TaskView| #[trigger]
            server.queue.contains_key(task) && task.node_id == node_id;
        assert(task_key(task.node_id) == task_key(node_id));
    }
}

/// After a worker has made itself known, its further heart beats change nothing.
pub proof fn heart_beat_changes_nothing<R>(
    before: ProxyView<R>,
    name: Seq<char>,
    register: Register,
    router: R,
    action: StreamAction,
    name_after: Seq<char>,
    after: ProxyView<R>,
    next_action: StreamAction,
    next_name: Seq<char>,
    at_last: ProxyView<R>,
)
    requires
        streamed(
            before,
            name,
            StreamEvent::Message(PowMessage::Register(register)),
            router,
            action,
            name_after,
            after,
        ),
        streamed(
            after,
            name_after,
            StreamEvent::Message(PowMessage::Register(register)),
            router,
            next_action,
            next_name,
            at_last,
        ),
    ensures
        next_action is Nothing,
        next_name == name_after,
        at_last == after,
{
}

/// A worker whose connection was silent or broke is known no more; what waits and what is
/// pending stays.
pub proof fn closed_worker_is_forgotten<R>(
    before: ProxyView<R>,
    name: Seq<char>,
    event: StreamEvent,
    router: R,
    action: StreamAction,
    name_after: Seq<char>,
    after: ProxyView<R>,
)
    requires
        streamed(before, name, event, router, action, name_after, after),
    ensures
        action is Close <==> (event is Silent || event is Broken),
        action is Close ==> {
            &&& !after.workers.contains_key(name)
            &&& after.queue == before.queue
            &&& after.pending == before.pending
        },
{
}

/// A worker that makes itself known under a new name is idle from then on, reached by its own
/// connection, and the connection goes by that name; nothing changes for the other workers or for
/// what is pending.
pub proof fn registered_worker_is_idle<R>(
    before: ProxyView<R>,
    name: Seq<char>,
    register: Register,
    router: R,
    action: StreamAction,
    name_after: Seq<char>,
    after: ProxyView<R>,
    other: Seq<char>,
)
    requires
        streamed(
            before,
            name,
            StreamEvent::Message(PowMessage::Register(register)),
            router,
            action,
            name_after,
            after,
        ),
        register.name@ != name,
        other != register.name@,
    ensures
        can_handle(before, name, StreamEvent::Message(PowMessage::Register(register))),
        is_idle(after, register.name@),
        after.workers.contains_key(register.name@),
        after.workers[register.name@].status == 1,
        after.workers[register.name@].router == router,
        after.workers.contains_key(other) <==> before.workers.contains_key(other),
        before.workers.contains_key(other) ==> after.workers[other] == before.workers[other],
        after.pending == before.pending,
        name_after == register.name@,
{
}

/// A submission that is no duplicate and comes right after a registration that found no waiting
/// task goes to a worker, and to the one that has registered if all others are at work.
pub proof fn submission_after_registration_is_assigned<R>(
    before: ProxyView<R>,
    name: Seq<char>,
    register: Register,
    router: R,
    name_after: Seq<char>,
    after: ProxyView<R>,
    task: TaskView,
    stored: bool,
    outcome: SubmitOutcome,
    at_last: ProxyView<R>,
)
    requires
        streamed(
            before,
            name,
            StreamEvent::Message(PowMessage::Register(register)),
            router,
            StreamAction::Nothing,
            name_after,
            after,
        ),
        register.name@ != name,
        submitted(after, task, stored, outcome, at_last),
    ensures
        outcome is Duplicate <==> {
            ||| stored
            ||| before.pending.contains_key(
                submission_id(task.node_id, task.start_nonce, task.end_nonce),
            )
        },
        !(outcome is Duplicate) ==> {
            &&& outcome matches SubmitOutcome::Assigned(message)
            &&& carried_task(message) == task
            &&& named_worker(message) matches Some(assigned)
            &&& after.workers.contains_key(assigned)
            &&& after.workers[assigned].status == 1
            &&& (forall|other: Seq<char>| #[trigger]
                before.workers.contains_key(other) ==> before.workers[other].status != 1)
                ==> assigned == register.name@
        },
        at_last == after,
{
    assert(after.workers.contains_key(register.name@));
    if waits_for_node(after.queue, task.node_id) {
        let waiting = choose|waiting: TaskView| #[trigger]
            after.queue.contains_key(waiting) && waiting.node_id == task.node_id;
        assert(before.queue.contains_key(waiting));
    }
    if let SubmitOutcome::Assigned(message) = outcome {
        if let Some(assigned) = named_worker(message) {
            assert(assigned == register.name@ || before.workers.contains_key(assigned));
        }
    }
}

/// A worker that makes itself known while tasks wait gets one of them at once, one that no other
/// undercuts; once that has been sent the worker is busy, the task pending and no longer waiting.
pub proof fn registered_worker_gets_a_waiting_task<R>(
    before: ProxyView<R>,
    name: Seq<char>,
    register: Register,
    router: R,
    action: StreamAction,
    name_after: Seq<char>,
    after: ProxyView<R>,
    waiting: TaskView,
    now: u128,
)
    requires
        streamed(
            before,
            name,
            StreamEvent::Message(PowMessage::Register(register)),
            router,
            action,
            name_after,
            after,
        ),
        register.name@ != name,
        before.queue.contains_key(waiting),
    ensures
        action matches StreamAction::Assign(message) && {
            let task = carried_task(message);
            let at_last = dispatched(after, named_worker(message), task, now);
            &&& named_worker(message) == Some(register.name@)
            &&& before.queue.contains_key(task)
            &&& before.queue[task] <= before.queue[waiting]
            &&& !at_last.queue.contains_key(task)
            &&& waiting != task ==> at_last.queue.contains_key(waiting)
                && at_last.queue[waiting] == before.queue[waiting]
            &&& at_last.workers[register.name@].status == 2
            &&& at_last.workers[register.name@].router == router
            &&& at_last.pending.contains_key(task_key(task.node_id))
            &&& at_last.pending[task_key(task.node_id)] == now
        },
{
}

/// A task that is sent out keeps every other worker, every other pending task and all that waits
/// as they are; the worker that it names, and no other, becomes busy and stays reached as before.
pub proof fn dispatch_touches_one_worker_and_one_task<R>(
    before: ProxyView<R>,
    name: Option<Seq<char>>,
    task: TaskView,
    now: u128,
    worker: Seq<char>,
    key: Seq<char>,
)
    requires
        name matches Some(named) ==> before.workers.contains_key(named),
    ensures
        ({
            let after = dispatched(before, name, task, now);
            &&& after.queue == before.queue
            &&& after.workers.contains_key(worker) <==> before.workers.contains_key(worker)
            &&& before.workers.contains_key(worker) ==> after.workers[worker].router
                == before.workers[worker].router
            &&& before.workers.contains_key(worker) ==> after.workers[worker].status == if name
                == Some(worker) {
                2
            } else {
                before.workers[worker].status
            }
            &&& after.pending.contains_key(key) <==> before.pending.contains_key(key) || key
                == task_key(task.node_id)
            &&& after.pending.contains_key(key) ==> after.pending[key] == if key == task_key(
                task.node_id,
            ) {
                now
            } else {
                before.pending[key]
            }
        }),
{
}

/// A worker gets the very task that was submitted: its challenge, its nonces, its difficulties,
/// its node and its flags, under the key of the node; this holds of a task that is assigned at
/// once, and of one that has waited.
pub proof fn worker_gets_the_submitted_task<R>(
    before: ProxyView<R>,
    task: TaskView,
    stored: bool,
    outcome: SubmitOutcome,
    after: ProxyView<R>,
    submit: ServerSubmitRequest,
)
    requires
        submitted(before, task, stored, outcome, after),
        submit.request@ == task,
    ensures
        outcome matches SubmitOutcome::Assigned(message) ==> carried_task(message) == task,
        outcome is Queued ==> after.queue.contains_key(task) && after.queue[task] == task.priority,
        ({
            let order = work_order(
                carried_task(ServerMessage::ServerSubmitRequest(submit)),
            );
            &&& order.id == task_key(submit.request.node_id@)
            &&& order.challenge == submit.request.challenge@
            &&& order.start_nonce == submit.request.start_nonce
            &&& order.end_nonce == submit.request.end_nonce
            &&& order.difficulty == submit.request.difficulty
            &&& order.pow_difficulty == submit.request.pow_difficulty@
            &&& order.node_id == submit.request.node_id@
            &&& order.pow_flags == submit.request.pow_flags@
        }),
{
}

/// Two tasks that differ in anything but their priority are sent to workers as different orders.
pub proof fn different_tasks_are_different_orders(a: TaskView, b: TaskView)
    ensures
        work_order(a) == work_order(b) <==> a == (TaskView { priority: a.priority, ..b }),
{
    if work_order(a) == work_order(b) {
        assert(a =~= (TaskView { priority: a.priority, ..b }));
    }
}

/// What becomes of a submission, told from the tables alone: it is ignored exactly if its node
/// has a task that waits, or its identifier has a stored result or a pending task; otherwise it
/// goes to some idle worker exactly if there is one, and waits exactly if there is none.
pub proof fn submission_goes_where_it_can<R>(
    before: ProxyView<R>,
    task: TaskView,
    stored: bool,
    outcome: SubmitOutcome,
    after: ProxyView<R>,
)
    requires
        submitted(before, task, stored, outcome, after),
    ensures
        outcome is Duplicate <==> {
            ||| exists|waiting: TaskView| #[trigger]
                before.queue.contains_key(waiting) && waiting.node_id == task.node_id
            ||| stored
            ||| before.pending.contains_key(
                submission_id(task.node_id, task.start_nonce, task.end_nonce),
            )
        },
        outcome matches SubmitOutcome::Assigned(message) ==> (named_worker(message) matches Some(
            name,
        ) && before.workers.contains_key(name) && before.workers[name].status == 1),
        outcome is Queued ==> forall|name: Seq<char>| #[trigger]
            before.workers.contains_key(name) ==> before.workers[name].status != 1,
        !(outcome is Queued) ==> after == before,
        after.workers == before.workers,
        after.pending == before.pending,
{
}

/// The question for a result is answered with what is stored, if anything is; otherwise that the
/// task is pending exactly if a task with that key waits or is being worked on, and that it was
/// missed if not. The answer carries the identifier of the question.
pub proof fn question_is_answered_from_what_is_known<R>(
    server: ProxyView<R>,
    id: Seq<char>,
    stored: TaskResponseView,
)
    ensures
        result_of(server, id, Some(stored)) == stored,
        result_of(server, id, None).id == id,
        result_of(server, id, None).data is None,
        result_of(server, id, None).status == 1 || result_of(server, id, None).status == 3,
        result_of(server, id, None).status == 1 <==> {
            ||| exists|waiting: TaskView| #[trigger]
                server.queue.contains_key(waiting) && task_key(waiting.node_id) == id
            ||| server.pending.contains_key(id)
        },
{
}

/// A response settles its task and no other, and frees its worker and no other: the worker is
/// idle if nothing waits, and otherwise gets a waiting task that no other undercuts, with a
/// message that names nobody, as the worker is busy already.
pub proof fn response_settles_one_task<R>(
    before: ProxyView<R>,
    name: Seq<char>,
    response: PowResponse,
    router: R,
    action: StreamAction,
    name_after: Seq<char>,
    after: ProxyView<R>,
    worker: Seq<char>,
    key: Seq<char>,
    waiting: TaskView,
)
    requires
        can_handle(before, name, StreamEvent::Message(PowMessage::Response(response))),
        streamed(
            before,
            name,
            StreamEvent::Message(PowMessage::Response(response)),
            router,
            action,
            name_after,
            after,
        ),
    ensures
        after.pending.contains_key(key) <==> before.pending.contains_key(key) && key
            != response.id@,
        after.pending.contains_key(key) ==> after.pending[key] == before.pending[key],
        after.workers.contains_key(worker) <==> before.workers.contains_key(worker),
        before.workers.contains_key(worker) ==> after.workers[worker].router
            == before.workers[worker].router,
        before.workers.contains_key(worker) && worker != name ==> after.workers[worker]
            == before.workers[worker],
        before.queue == Map::<TaskView, u16>::empty() ==> after.workers.contains_key(name)
            && after.workers[name].status == 1,
        before.queue.contains_key(waiting) ==> {
            &&& after.workers == before.workers
            &&& action matches StreamAction::Store(_, Some(message))
            &&& named_worker(message) is None
            &&& before.queue.contains_key(carried_task(message))
            &&& before.queue[carried_task(message)] <= before.queue[waiting]
            &&& after.queue.contains_key(waiting) <==> waiting != carried_task(message)
        },
        action matches StreamAction::Store(result, _) && {
            &&& result.id@ == response.id@
            &&& result.status == 2
            &&& result@.data == Some(response.ciphers_pows@)
        },
        name_after == name,
{
}

/// A task is given up exactly when it has been with a worker for ten minutes: at that nanosecond
/// it is no longer pending, and at the one before it still is.
pub proof fn task_is_given_up_after_ten_minutes(
    pending: Map<Seq<char>, u128>,
    key: Seq<char>,
    now: u128,
)
    requires
        pending.contains_key(key),
    ensures
        now < pending[key] + 10 * 60 * 1_000_000_000 ==> still_pending(pending, now).contains_key(
            key,
        ) && still_pending(pending, now)[key] == pending[key],
        now >= pending[key] + 10 * 60 * 1_000_000_000 ==> !still_pending(
            pending,
            now,
        ).contains_key(key),
        forall|other: Seq<char>| #[trigger]
            still_pending(pending, now).contains_key(other) ==> pending.contains_key(other),
{
}

/// The proxy can go on after every message, unless a worker that it does not know responds while
/// nothing waits; and after the end of a connection if it knows the worker.
pub proof fn known_workers_can_always_be_handled<R>(
    server: ProxyView<R>,
    name: Seq<char>,
    event: StreamEvent,
)
    ensures
        server.workers.contains_key(name) ==> can_handle(server, name, event),
        !server.workers.contains_key(name) ==> (can_handle(server, name, event) <==> (
        event matches StreamEvent::Message(message) && (message is Response ==> server.queue
            != Map::<TaskView, u16>::empty()))),
{
}

/// How long the proxy listens, writes, waits between two looks at late tasks, and keeps results.
pub proof fn times_of_the_proxy(network: Seq<char>)
    ensures
        SILENCE_SECONDS == 5 * 60,
        SEND_MILLIS == 200,
        SWEEP_SECONDS == 30,
        network == "testnet"@ ==> kept_for(network) == 10 * 60,
        network != "testnet"@ ==> kept_for(network) == 60 * 60,
{
}

} // verus!
