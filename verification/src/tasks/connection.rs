//! A worker's connection to the proxy: what is sent over it, and what holds of it while it lasts.

use std::collections::HashMap;
use vstd::prelude::*;

use crate::messages::codec::{PowMessage, PowRequest, PowResponse, Register};
use crate::tasks::worker::{heart_beat, reading, ConnectionAction, HEART_BEAT_SECONDS};

verus! {

/// What happens to the sending side of a connection.
#[derive(Debug)]
pub enum SendEvent {
    /// The next message was taken from the queue.
    Taken(PowMessage),
    /// A write has ended, in success or not.
    Written(bool),
}

/// What the sending side does.
#[derive(Debug)]
pub enum SendAction {
    /// The message is to be written.
    Write(PowMessage),
    /// The message that was taken is passed over, and the next one awaited.
    Skip,
    /// The next message is awaited.
    Next,
    /// Nothing more is taken or written.
    End,
}

/// What the sending side does on `event`: it writes heart beats and responses, and ends after a
/// failed write.
pub open spec fn sending(event: SendEvent) -> SendAction {
    match event {
        SendEvent::Taken(message) => if message is Register || message is Response {
            SendAction::Write(message)
        } else {
            SendAction::Skip
        },
        SendEvent::Written(written) => if written {
            SendAction::Next
        } else {
            SendAction::End
        },
    }
}

/// Decides what the sending side does next.
pub fn send_step(event: SendEvent) -> (action: SendAction)
    ensures
        action == sending(event),
        action is Write <==> (event matches SendEvent::Taken(message) && (message is Register
            || message is Response)),
        action is End <==> event == SendEvent::Written(false),
        event matches SendEvent::Taken(message) ==> (if message is Request {
            action is Skip
        } else {
            action == SendAction::Write(message)
        }),
        event == SendEvent::Written(true) ==> action is Next,
{
    match event {
        SendEvent::Taken(PowMessage::Register(register)) => SendAction::Write(
            PowMessage::Register(register),
        ),
        SendEvent::Taken(PowMessage::Response(response)) => SendAction::Write(
            PowMessage::Response(response),
        ),
        SendEvent::Taken(PowMessage::Request(_)) => SendAction::Skip,
        SendEvent::Written(written) => if written {
            SendAction::Next
        } else {
            SendAction::End
        },
    }
}

/// A heart beat or a response that was taken from the queue is written as it is, a request never;
/// the sending goes on after every write that succeeds and ends after one that does not.
pub proof fn taken_message_is_written(message: PowMessage)
    ensures
        message is Register || message is Response ==> sending(SendEvent::Taken(message))
            == SendAction::Write(message),
        message is Request ==> sending(SendEvent::Taken(message)) is Skip,
        sending(SendEvent::Written(true)) is Next,
        sending(SendEvent::Written(false)) is End,
{
}

/// What happens to the heart beat of a connection.
#[derive(Debug)]
pub enum HeartEvent {
    /// The connection has begun.
    Begun,
    /// A heart beat was put into the queue, or could not be, the queue being closed.
    Queued(bool),
    /// The time between two heart beats is over.
    Rested,
}

/// What the heart beat does.
#[derive(Debug)]
pub enum HeartAction {
    /// The message is to be put into the queue.
    Beat(PowMessage),
    /// Nothing happens for so many seconds.
    Rest(u64),
    /// There are no more heart beats.
    Stop,
}

/// What the heart beat of the worker `name` does on `event`.
pub open spec fn beating(name: String, event: HeartEvent) -> HeartAction {
    match event {
        HeartEvent::Begun | HeartEvent::Rested => HeartAction::Beat(
            PowMessage::Register(Register { name }),
        ),
        HeartEvent::Queued(queued) => if queued {
            HeartAction::Rest(HEART_BEAT_SECONDS)
        } else {
            HeartAction::Stop
        },
    }
}

/// Decides what the heart beat of the worker `name` does next.
pub fn heart_step(name: &String, event: HeartEvent) -> (action: HeartAction)
    ensures
        action == beating(*name, event),
        event is Begun || event is Rested ==> action == HeartAction::Beat(
            PowMessage::Register(Register { name: *name }),
        ),
        event == HeartEvent::Queued(true) ==> action == HeartAction::Rest(30),
        event == HeartEvent::Queued(false) ==> action is Stop,
{
    match event {
        HeartEvent::Begun | HeartEvent::Rested => HeartAction::Beat(heart_beat(name)),
        HeartEvent::Queued(queued) => if queued {
            HeartAction::Rest(HEART_BEAT_SECONDS)
        } else {
            HeartAction::Stop
        },
    }
}

/// The heart beats at once and after every rest, with the worker's name and no other; after every
/// heart beat that was put into the queue it rests for half a minute.
pub proof fn heart_beats_with_the_name(name: String)
    ensures
        beating(name, HeartEvent::Begun) == HeartAction::Beat(
            PowMessage::Register(Register { name }),
        ),
        beating(name, HeartEvent::Rested) == HeartAction::Beat(
            PowMessage::Register(Register { name }),
        ),
        beating(name, HeartEvent::Queued(true)) == HeartAction::Rest(30),
        beating(name, HeartEvent::Queued(false)) is Stop,
{
}

/// What the reading side of a connection is at.
pub enum Reading {
    /// It awaits a message.
    Waiting,
    /// It computes a task.
    Computing(PowRequest),
    /// It has ended.
    Stopped,
}

/// A connection as it stands: what its three sides are at, and what has gone through it.
pub struct Connection {
    /// The name of the worker.
    pub name: String,
    /// The reading side.
    pub reading: Reading,
    /// The heart beat.
    pub heart: HeartAction,
    /// The sending side.
    pub sending: SendAction,
    /// All messages that were put into the queue, in that order.
    pub queued: Seq<PowMessage>,
    /// How many of them were taken.
    pub taken: nat,
    /// All messages that were handed to the socket, in that order.
    pub sent: Seq<PowMessage>,
    /// How many heart beats were put into the queue.
    pub beats: nat,
    /// For how many seconds the heart beat has rested.
    pub rested: nat,
}

/// What can happen to a connection.
pub enum Occurrence {
    /// A message came from the proxy, or the connection's end or what is no message.
    Received(Option<PowMessage>),
    /// The task was computed, or could not be.
    Computed(Option<HashMap<u32, u64>>),
    /// The heart beat's message was put into the queue, or could not be.
    Queued(bool),
    /// The heart beat's rest is over.
    Rested,
    /// The sending side took the next message from the queue.
    Taken,
    /// The write has ended, in success or not.
    Written(bool),
}

/// A connection of the worker `name` at its beginning.
pub open spec fn begun(name: String) -> Connection {
    Connection {
        name,
        reading: Reading::Waiting,
        heart: beating(name, HeartEvent::Begun),
        sending: SendAction::Next,
        queued: Seq::empty(),
        taken: 0,
        sent: Seq::empty(),
        beats: 0,
        rested: 0,
    }
}

/// What can happen next. The queue is first in, first out, and is closed once the sending side
/// has ended.
pub open spec fn can_occur(now: Connection, what: Occurrence) -> bool {
    match what {
        Occurrence::Received(_) => now.reading is Waiting,
        Occurrence::Computed(_) => now.reading is Computing,
        Occurrence::Queued(queued) => now.heart is Beat && queued == (now.sending !is End),
        Occurrence::Rested => now.heart is Rest,
        Occurrence::Taken => (now.sending is Next || now.sending is Skip) && now.taken
            < now.queued.len(),
        Occurrence::Written(_) => now.sending is Write,
    }
}

/// The connection after `what` has happened to it.
pub open spec fn after(now: Connection, what: Occurrence) -> Connection {
    match what {
        Occurrence::Received(message) => Connection {
            reading: match reading(message) {
                ConnectionAction::Compute(request) => Reading::Computing(request),
                ConnectionAction::Stop => Reading::Stopped,
            },
            ..now
        },
        Occurrence::Computed(pows) => match pows {
            Some(ciphers_pows) => Connection {
                reading: Reading::Waiting,
                queued: if now.sending is End {
                    now.queued
                } else {
                    now.queued.push(
                        PowMessage::Response(
                            PowResponse { id: now.reading->Computing_0.id, ciphers_pows },
                        ),
                    )
                },
                ..now
            },
            None => Connection { reading: Reading::Stopped, ..now },
        },
        Occurrence::Queued(queued) => Connection {
            heart: beating(now.name, HeartEvent::Queued(queued)),
            queued: if queued {
                now.queued.push(now.heart->Beat_0)
            } else {
                now.queued
            },
            beats: if queued {
                now.beats + 1
            } else {
                now.beats
            },
            ..now
        },
        Occurrence::Rested => Connection {
            heart: beating(now.name, HeartEvent::Rested),
            rested: now.rested + now.heart->Rest_0 as nat,
            ..now
        },
        Occurrence::Taken => {
            let action = sending(SendEvent::Taken(now.queued[now.taken as int]));
            Connection {
                sending: action,
                taken: now.taken + 1,
                sent: match action {
                    SendAction::Write(message) => now.sent.push(message),
                    _ => now.sent,
                },
                ..now
            }
        },
        Occurrence::Written(written) => Connection {
            sending: sending(SendEvent::Written(written)),
            ..now
        },
    }
}

/// The connection of the worker `name` after all of `history`.
pub open spec fn reached(name: String, history: Seq<Occurrence>) -> Connection
    decreases history.len(),
{
    if history.len() == 0 {
        begun(name)
    } else {
        after(reached(name, history.drop_last()), history.last())
    }
}

/// Whether `history` can happen to a connection of the worker `name`.
pub open spec fn possible(name: String, history: Seq<Occurrence>) -> bool
    decreases history.len(),
{
    history.len() == 0 || (possible(name, history.drop_last()) && can_occur(
        reached(name, history.drop_last()),
        history.last(),
    ))
}

/// What a connection returns: nothing as long as one of its sides is at work, and no error then.
pub open spec fn outcome(now: Connection) -> Option<Result<(), ()>> {
    if now.reading is Stopped && now.heart is Stop && now.sending is End {
        Some(Ok(()))
    } else {
        None
    }
}

/// Whether a worker `name` may send `message`: a response, or a heart beat with its name.
pub open spec fn from_worker(name: String, message: PowMessage) -> bool {
    message is Response || message == PowMessage::Register(Register { name })
}

/// What is put into the queue of a connection are responses and heart beats with the worker's
/// name, and nothing else; what is sent are these messages, each once and in that order, as far
/// as they were taken from the queue.
pub proof fn only_heart_beats_and_responses_are_sent(name: String, history: Seq<Occurrence>)
    requires
        possible(name, history),
    ensures
        ({
            let now = reached(name, history);
            &&& now.name == name
            &&& now.heart matches HeartAction::Beat(message) ==> message == PowMessage::Register(
                Register { name },
            )
            &&& forall|i: int| 0 <= i < now.queued.len() ==> from_worker(name, #[trigger] now.queued[i])
            &&& forall|i: int| 0 <= i < now.sent.len() ==> from_worker(name, #[trigger] now.sent[i])
            &&& now.taken <= now.queued.len()
            &&& now.sent == now.queued.take(now.taken as int)
        }),
    decreases history.len(),
{
    if history.len() > 0 {
        only_heart_beats_and_responses_are_sent(name, history.drop_last());
        let before = reached(name, history.drop_last());
        let now = reached(name, history);
        assert(now == after(before, history.last()));
        assert(now.sent =~= now.queued.take(now.taken as int));
        assert forall|i: int| 0 <= i < now.sent.len() implies from_worker(
            name,
            #[trigger] now.sent[i],
        ) by {
            assert(now.sent[i] == now.queued[i]);
        }
    }
}

/// The responses among `messages`, in their order.
pub open spec fn responses(messages: Seq<PowMessage>) -> Seq<PowResponse>
    decreases messages.len(),
{
    if messages.len() == 0 {
        Seq::empty()
    } else {
        match messages.last() {
            PowMessage::Response(response) => responses(messages.drop_last()).push(response),
            _ => responses(messages.drop_last()),
        }
    }
}

/// The requests that came from the proxy in `history`, in their order.
pub open spec fn requests(history: Seq<Occurrence>) -> Seq<PowRequest>
    decreases history.len(),
{
    if history.len() == 0 {
        Seq::empty()
    } else {
        match history.last() {
            Occurrence::Received(Some(PowMessage::Request(request))) => requests(
                history.drop_last(),
            ).push(request),
            _ => requests(history.drop_last()),
        }
    }
}

/// The proofs of work that were computed in `history`, in their order.
pub open spec fn computed(history: Seq<Occurrence>) -> Seq<HashMap<u32, u64>>
    decreases history.len(),
{
    if history.len() == 0 {
        Seq::empty()
    } else {
        match history.last() {
            Occurrence::Computed(Some(pows)) => computed(history.drop_last()).push(pows),
            _ => computed(history.drop_last()),
        }
    }
}

/// The answers to the requests that were computed in `history`: the proofs of work, each under
/// the identifier of its request.
pub open spec fn answers(history: Seq<Occurrence>) -> Seq<PowResponse> {
    Seq::new(
        computed(history).len(),
        |i: int| PowResponse { id: requests(history)[i].id, ciphers_pows: computed(history)[i] },
    )
}

/// The requests of a connection are computed one after the other, in the order in which they
/// came: all of them are computed but the last, which may be the one that is being computed or
/// the one that could not be.
pub proof fn requests_are_computed_in_order(name: String, history: Seq<Occurrence>)
    requires
        possible(name, history),
    ensures
        match reached(name, history).reading {
            Reading::Waiting => requests(history).len() == computed(history).len(),
            Reading::Computing(request) => requests(history).len() == computed(history).len() + 1
                && requests(history).last() == request,
            Reading::Stopped => computed(history).len() <= requests(history).len() <= computed(
                history,
            ).len() + 1,
        },
    decreases history.len(),
{
    if history.len() > 0 {
        requests_are_computed_in_order(name, history.drop_last());
        assert(reached(name, history) == after(
            reached(name, history.drop_last()),
            history.last(),
        ));
    }
}

/// The responses in the queue of a connection are the answers to its requests, one for each that
/// was computed, under that request's identifier and in that order: all of them as long as no
/// write has failed, and the first ones of them afterwards.
pub proof fn responses_answer_the_requests(name: String, history: Seq<Occurrence>)
    requires
        possible(name, history),
    ensures
        ({
            let queued = responses(reached(name, history).queued);
            &&& queued.len() <= answers(history).len()
            &&& queued == answers(history).take(queued.len() as int)
            &&& !history.contains(Occurrence::Written(false)) ==> queued == answers(history)
        }),
    decreases history.len(),
{
    if history.len() > 0 {
        let earlier = history.drop_last();
        let before = reached(name, earlier);
        let now = reached(name, history);
        responses_answer_the_requests(name, earlier);
        requests_are_computed_in_order(name, earlier);
        sending_ends_with_a_failed_write(name, earlier);
        sending_ends_with_a_failed_write(name, history);
        only_heart_beats_and_responses_are_sent(name, earlier);
        assert(now == after(before, history.last()));
        assert(history =~= earlier.push(history.last()));
        let failed = Occurrence::Written(false);
        if earlier.contains(failed) {
            let i = earlier.index_of(failed);
            assert(history[i] == failed);
        }
        assert(now.queued != before.queued ==> now.queued.drop_last() =~= before.queued);
        assert(answers(earlier) =~= answers(history).take(computed(earlier).len() as int));
        if let Occurrence::Computed(Some(pows)) = history.last() {
            assert(answers(history) =~= answers(earlier).push(
                PowResponse { id: before.reading->Computing_0.id, ciphers_pows: pows },
            ));
        } else {
            assert(answers(history) =~= answers(earlier));
        }
        assert(responses(now.queued) =~= answers(history).take(
            responses(now.queued).len() as int,
        ));
    } else {
        assert(answers(history) =~= Seq::<PowResponse>::empty());
        assert(responses(reached(name, history).queued) =~= Seq::<PowResponse>::empty());
    }
}

/// The first heart beat is put into the queue at once, and each further one after another rest
/// of the time between heart beats: when the next one is due, the heart beat has rested for that
/// time as often as there were heart beats. They stop only once the sending side has ended.
pub proof fn heart_beats_at_fixed_times(name: String, history: Seq<Occurrence>)
    requires
        possible(name, history),
    ensures
        ({
            let now = reached(name, history);
            match now.heart {
                HeartAction::Beat(_) => now.rested == now.beats * HEART_BEAT_SECONDS,
                HeartAction::Rest(seconds) => {
                    &&& seconds == HEART_BEAT_SECONDS
                    &&& now.beats > 0
                    &&& now.rested == (now.beats - 1) * HEART_BEAT_SECONDS
                },
                HeartAction::Stop => {
                    &&& now.sending is End
                    &&& now.rested == now.beats * HEART_BEAT_SECONDS
                },
            }
        }),
    decreases history.len(),
{
    if history.len() > 0 {
        heart_beats_at_fixed_times(name, history.drop_last());
        let before = reached(name, history.drop_last());
        assert(reached(name, history) == after(before, history.last()));
    }
}

/// The sending side has ended exactly if a write has failed.
pub proof fn sending_ends_with_a_failed_write(name: String, history: Seq<Occurrence>)
    requires
        possible(name, history),
    ensures
        reached(name, history).sending is End <==> history.contains(Occurrence::Written(false)),
    decreases history.len(),
{
    if history.len() > 0 {
        let earlier = history.drop_last();
        sending_ends_with_a_failed_write(name, earlier);
        assert(history =~= earlier.push(history.last()));
        let failed = Occurrence::Written(false);
        if earlier.contains(failed) {
            let i = earlier.index_of(failed);
            assert(history[i] == failed);
        }
        if history.last() == failed {
            assert(history[history.len() - 1] == failed);
        }
        if history.contains(failed) && history.last() != failed {
            let i = history.index_of(failed);
            assert(earlier[i] == failed);
        }
    }
}

/// After a failed write nothing more is put into the queue, taken from it or sent.
pub proof fn nothing_is_sent_after_a_failed_write(
    name: String,
    history: Seq<Occurrence>,
    failure: int,
)
    requires
        possible(name, history),
        0 <= failure < history.len(),
        history[failure] == Occurrence::Written(false),
    ensures
        ({
            let failed = reached(name, history.take(failure + 1));
            let now = reached(name, history);
            &&& now.sending is End
            &&& now.queued == failed.queued
            &&& now.taken == failed.taken
            &&& now.sent == failed.sent
        }),
    decreases history.len(),
{
    let earlier = history.drop_last();
    if failure == history.len() - 1 {
        assert(history.take(failure + 1) =~= history);
    } else {
        assert(earlier.take(failure + 1) =~= history.take(failure + 1));
        nothing_is_sent_after_a_failed_write(name, earlier, failure);
    }
}

/// A connection returns no error, and returns only after a write has failed.
pub proof fn connection_returns_after_a_failed_write(name: String, history: Seq<Occurrence>)
    requires
        possible(name, history),
    ensures
        outcome(reached(name, history)) matches Some(result) ==> result is Ok && history.contains(
            Occurrence::Written(false),
        ),
{
    sending_ends_with_a_failed_write(name, history);
}

} // verus!
