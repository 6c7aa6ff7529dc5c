//! The client's side of a task: it submits the task to a proxy and asks until the proofs of work
//! are there.

use std::collections::HashMap;
use std::ops::Range;
use vstd::prelude::*;
use vstd::string::*;

use crate::messages::{
    TaskResponse, TaskSubmit, TaskSubmitResponse, TaskView, COMPLETED, MISSED,
};
use crate::text::{endpoint, endpoint_url};

verus! {

/// How long the client waits before it asks again, in seconds.
pub const ASK_AGAIN_SECONDS: u64 = 30;

/// What the client is about to do.
#[derive(Debug)]
pub enum PowState {
    /// It submits the task for the first time.
    Submitting,
    /// It submits the task once more, because the proxy does not know it.
    Resubmitting,
    /// It asks for the result of the task with this identifier.
    Asking(String),
    /// It waits before it asks for the result of the task with this identifier.
    Waiting(String),
    /// It has the proofs of work.
    Done(HashMap<u32, u64>),
}

/// What a `PowState` says.
#[verifier::ext_equal]
pub enum PowStateView {
    Submitting,
    Resubmitting,
    Asking(Seq<char>),
    Waiting(Seq<char>),
    Done(Map<u32, u64>),
}

impl View for PowState {
    type V = PowStateView;

    open spec fn view(&self) -> PowStateView {
        match self {
            PowState::Submitting => PowStateView::Submitting,
            PowState::Resubmitting => PowStateView::Resubmitting,
            PowState::Asking(id) => PowStateView::Asking(id@),
            PowState::Waiting(id) => PowStateView::Waiting(id@),
            PowState::Done(pows) => PowStateView::Done(pows@),
        }
    }
}

/// What has become of what the client did.
#[derive(Debug)]
pub enum PowEvent {
    /// The submission was answered.
    Submitted(TaskSubmitResponse),
    /// The question was answered; `None` stands for an answer that could not be read.
    Answered(Option<TaskResponse>),
    /// The wait is over.
    Waited,
}

/// `event` is one that can follow in `state`. A proxy that says that the task is completed also
/// gives the proofs of work.
pub open spec fn can_follow(state: PowStateView, event: PowEvent) -> bool {
    match event {
        PowEvent::Submitted(_) => state is Submitting || state is Resubmitting,
        PowEvent::Answered(Some(answer)) => state is Asking && (answer.status == COMPLETED
            ==> answer.data is Some),
        PowEvent::Answered(None) => state is Asking,
        PowEvent::Waited => state is Waiting,
    }
}

/// The state that follows from `event` in `state`.
pub open spec fn after_event(state: PowStateView, event: PowEvent) -> PowStateView {
    match (state, event) {
        (PowStateView::Submitting, PowEvent::Submitted(answer)) => PowStateView::Asking(answer.id@),
        (PowStateView::Resubmitting, PowEvent::Submitted(answer)) => PowStateView::Waiting(
            answer.id@,
        ),
        (PowStateView::Asking(id), PowEvent::Answered(Some(answer))) => if answer.status
            == COMPLETED {
            PowStateView::Done(answer.data->0@)
        } else if answer.status == MISSED {
            PowStateView::Resubmitting
        } else {
            PowStateView::Waiting(id)
        },
        (PowStateView::Asking(id), PowEvent::Answered(None)) => PowStateView::Waiting(id),
        (PowStateView::Waiting(id), PowEvent::Waited) => PowStateView::Asking(id),
        _ => state,
    }
}

/// A task on its way through a proxy.
#[derive(Debug)]
pub struct RemotePow {
    /// What is submitted.
    pub request: TaskSubmit,
    /// Where it is submitted.
    pub submit_url: String,
    /// Where its result is asked for.
    pub query_url: String,
    pub state: PowState,
}

/// Prepares the task of a node for the proxy at `pow_address`.
pub fn generate_pow_remotely(
    node_id: [u8; 32],
    priority: u16,
    pow_address: &str,
    challenge: &[u8; 32],
    difficulty: u64,
    pow_difficulty: [u8; 32],
    nonces: Range<u32>,
    pow_flags: String,
) -> (remote: RemotePow)
    ensures
        remote.request@ == (TaskView {
            priority,
            challenge: challenge@,
            start_nonce: nonces.start,
            end_nonce: nonces.end,
            difficulty,
            pow_difficulty: pow_difficulty@,
            node_id: node_id@,
            pow_flags: pow_flags@,
        }),
        remote.submit_url@ == endpoint(pow_address@, "/submit"@),
        remote.query_url@ == endpoint(pow_address@, "/task"@),
        remote.submit_url@ == "http://"@ + pow_address@ + "/submit"@,
        remote.query_url@ == "http://"@ + pow_address@ + "/task"@,
        remote.request == (TaskSubmit {
            priority,
            challenge: *challenge,
            start_nonce: nonces.start,
            end_nonce: nonces.end,
            difficulty,
            pow_difficulty,
            node_id,
            pow_flags,
        }),
        remote.state is Submitting,
        remote.state@ == PowStateView::Submitting,
{
    let request = TaskSubmit {
        priority,
        challenge: *challenge,
        start_nonce: nonces.start,
        end_nonce: nonces.end,
        difficulty,
        pow_difficulty,
        node_id,
        pow_flags,
    };
    RemotePow {
        request,
        submit_url: endpoint_url(pow_address, "/submit"),
        query_url: endpoint_url(pow_address, "/task"),
        state: PowState::Submitting,
    }
}

impl RemotePow {
    /// Whether `event` is one that can follow.
    pub fn accepts(&self, event: &PowEvent) -> (accepted: bool)
        ensures
            accepted == can_follow(self.state@, *event),
            *event is Submitted ==> accepted == (self.state is Submitting || self.state
                is Resubmitting),
            *event matches PowEvent::Answered(Some(answer)) ==> accepted == (self.state is Asking
                && (answer.status != 2 || answer.data is Some)),
            *event matches PowEvent::Answered(None) ==> accepted == (self.state is Asking),
            *event is Waited ==> accepted == (self.state is Waiting),
    {
        match event {
            PowEvent::Submitted(_) => match self.state {
                PowState::Submitting | PowState::Resubmitting => true,
                _ => false,
            },
            PowEvent::Answered(answer) => match self.state {
                PowState::Asking(_) => match answer {
                    Some(answer) => answer.status != COMPLETED || answer.data.is_some(),
                    None => true,
                },
                _ => false,
            },
            PowEvent::Waited => match self.state {
                PowState::Waiting(_) => true,
                _ => false,
            },
        }
    }

    /// Takes note of what has become of what the client did last, and decides what it does next.
    pub fn handle(&mut self, event: PowEvent)
        requires
            can_follow(old(self).state@, event),
        ensures
            final(self).state@ == after_event(old(self).state@, event),
            final(self).request == old(self).request,
            final(self).submit_url == old(self).submit_url,
            final(self).query_url == old(self).query_url,
            (old(self).state, event) matches (PowState::Submitting, PowEvent::Submitted(answer))
                ==> final(self).state == PowState::Asking(answer.id),
            (old(self).state, event) matches (PowState::Resubmitting, PowEvent::Submitted(answer))
                ==> final(self).state == PowState::Waiting(answer.id),
            (old(self).state, event) matches (
                PowState::Asking(id),
                PowEvent::Answered(Some(answer)),
            ) ==> {
                &&& answer.status == 2 ==> final(self).state == PowState::Done(answer.data->0)
                &&& answer.status == 3 ==> final(self).state is Resubmitting
                &&& answer.status != 2 && answer.status != 3 ==> final(self).state
                    == PowState::Waiting(id)
            },
            (old(self).state, event) matches (PowState::Asking(id), PowEvent::Answered(None)) ==>
                final(self).state == PowState::Waiting(id),
            (old(self).state, event) matches (PowState::Waiting(id), PowEvent::Waited) ==>
                final(self).state == PowState::Asking(id),
    {
        let mut state = PowState::Submitting;
        std::mem::swap(&mut state, &mut self.state);
        self.state = match (state, event) {
            (PowState::Submitting, PowEvent::Submitted(answer)) => PowState::Asking(answer.id),
            (PowState::Resubmitting, PowEvent::Submitted(answer)) => PowState::Waiting(answer.id),
            (PowState::Asking(id), PowEvent::Answered(Some(answer))) => {
                if answer.status == COMPLETED {
                    match answer.data {
                        Some(pows) => PowState::Done(pows),
                        None => PowState::Waiting(id),
                    }
                } else if answer.status == MISSED {
                    PowState::Resubmitting
                } else {
                    PowState::Waiting(id)
                }
            },
            (PowState::Asking(id), PowEvent::Answered(None)) => PowState::Waiting(id),
            (PowState::Waiting(id), PowEvent::Waited) => PowState::Asking(id),
            (state, _) => state,
        };
    }
}

/// The identifier that the client asks for or will ask for.
pub open spec fn current_id(state: PowStateView) -> Option<Seq<char>> {
    match state {
        PowStateView::Asking(id) => Some(id),
        PowStateView::Waiting(id) => Some(id),
        _ => None,
    }
}

/// A client that waits with an identifier, which it does for half a minute, can wait to the end,
/// whatever the identifier, and then asks with that same identifier.
pub proof fn asks_again_after_every_wait(id: Seq<char>)
    ensures
        ASK_AGAIN_SECONDS == 30,
        can_follow(PowStateView::Waiting(id), PowEvent::Waited),
        after_event(PowStateView::Waiting(id), PowEvent::Waited) == PowStateView::Asking(id),
{
}

/// A first submission, however it is answered, is followed at once by the question with the
/// identifier of the answer; a further submission by a wait and then that question.
pub proof fn submission_is_followed_by_its_question(answer: TaskSubmitResponse)
    ensures
        can_follow(PowStateView::Submitting, PowEvent::Submitted(answer)),
        after_event(PowStateView::Submitting, PowEvent::Submitted(answer)) == PowStateView::Asking(
            answer.id@,
        ),
        can_follow(PowStateView::Resubmitting, PowEvent::Submitted(answer)),
        after_event(PowStateView::Resubmitting, PowEvent::Submitted(answer))
            == PowStateView::Waiting(answer.id@),
        after_event(
            after_event(PowStateView::Resubmitting, PowEvent::Submitted(answer)),
            PowEvent::Waited,
        ) == PowStateView::Asking(answer.id@),
{
}

/// A question that is answered neither with proofs of work nor that the task is unknown, or whose
/// answer cannot be read, is asked again with the same identifier after a wait.
pub proof fn unsettled_question_is_asked_again(id: Seq<char>, answer: Option<TaskResponse>)
    requires
        answer matches Some(response) ==> response.status != 2 && response.status != 3,
    ensures
        can_follow(PowStateView::Asking(id), PowEvent::Answered(answer)),
        ({
            let waiting = after_event(PowStateView::Asking(id), PowEvent::Answered(answer));
            &&& can_follow(waiting, PowEvent::Waited)
            &&& after_event(waiting, PowEvent::Waited) == PowStateView::Asking(id)
        }),
        after_event(PowStateView::Asking(id), PowEvent::Answered(answer)) is Waiting,
{
}

/// A client never gets stuck: whatever it is about to do, at most three further events make it
/// done, with the proofs of work that the proxy gives.
pub proof fn client_can_always_be_done(
    state: PowStateView,
    id: TaskSubmitResponse,
    completed: TaskResponse,
)
    requires
        !(state is Done),
        completed.status == 2,
        completed.data is Some,
    ensures
        exists|events: Seq<PowEvent>|
            {
                &&& #[trigger] all_can_follow(state, events)
                &&& events.len() <= 3
                &&& after_events(state, events) == PowStateView::Done(completed.data->0@)
            },
{
    let last = PowEvent::Answered(Some(completed));
    let asking = seq![last];
    let waiting = seq![PowEvent::Waited, last];
    let submitting = seq![PowEvent::Submitted(id), last];
    let resubmitting = seq![PowEvent::Submitted(id), PowEvent::Waited, last];
    reveal_with_fuel(all_can_follow, 5);
    reveal_with_fuel(after_events, 5);
    assert(asking.drop_last() =~= Seq::<PowEvent>::empty());
    assert(waiting.drop_last() =~= seq![PowEvent::Waited]);
    assert(waiting.drop_last().drop_last() =~= Seq::<PowEvent>::empty());
    assert(submitting.drop_last() =~= seq![PowEvent::Submitted(id)]);
    assert(submitting.drop_last().drop_last() =~= Seq::<PowEvent>::empty());
    assert(resubmitting.drop_last() =~= seq![PowEvent::Submitted(id), PowEvent::Waited]);
    assert(resubmitting.drop_last().drop_last() =~= seq![PowEvent::Submitted(id)]);
    assert(resubmitting.drop_last().drop_last().drop_last() =~= Seq::<PowEvent>::empty());
    match state {
        PowStateView::Submitting => {
            assert(all_can_follow(state, submitting));
        },
        PowStateView::Resubmitting => {
            assert(all_can_follow(state, resubmitting));
        },
        PowStateView::Asking(_) => {
            assert(all_can_follow(state, asking));
        },
        PowStateView::Waiting(_) => {
            assert(all_can_follow(state, waiting));
        },
        PowStateView::Done(_) => {},
    }
}

/// The client is done only with proofs of work that came with the answer that the task is
/// completed, and with every such answer.
pub proof fn done_with_the_answer(state: PowStateView, event: PowEvent)
    requires
        can_follow(state, event),
    ensures
        after_event(state, event) is Done <==> (event matches PowEvent::Answered(Some(answer))
            && answer.status == COMPLETED),
        event matches PowEvent::Answered(Some(answer)) ==> (answer.status == COMPLETED
            ==> after_event(state, event) == PowStateView::Done(answer.data->0@)),
{
}

/// A task that the proxy does not know is submitted again, and only such a task.
pub proof fn missed_task_is_submitted_again(state: PowStateView, event: PowEvent)
    requires
        can_follow(state, event),
    ensures
        after_event(state, event) is Resubmitting <==> (event matches PowEvent::Answered(
            Some(answer),
        ) && answer.status == MISSED),
{
}

/// The client asks for the identifier with which its last submission was answered: a submission
/// sets it, and nothing else changes it.
pub proof fn asks_for_the_last_answer(state: PowStateView, event: PowEvent)
    requires
        can_follow(state, event),
    ensures
        event matches PowEvent::Submitted(answer) ==> current_id(after_event(state, event))
            == Some(answer.id@),
        !(event is Submitted) && current_id(after_event(state, event)) is Some ==> current_id(
            after_event(state, event),
        ) == current_id(state),
{
}

/// The state after a sequence of events.
pub open spec fn after_events(state: PowStateView, events: Seq<PowEvent>) -> PowStateView
    decreases events.len(),
{
    if events.len() == 0 {
        state
    } else {
        after_event(after_events(state, events.drop_last()), events.last())
    }
}

/// Each event of the sequence is one that can follow in the state that those before it lead to.
pub open spec fn all_can_follow(state: PowStateView, events: Seq<PowEvent>) -> bool
    decreases events.len(),
{
    events.len() > 0 ==> {
        &&& all_can_follow(state, events.drop_last())
        &&& can_follow(after_events(state, events.drop_last()), events.last())
    }
}

/// How many of the events are answers to submissions.
pub open spec fn submissions(events: Seq<PowEvent>) -> nat
    decreases events.len(),
{
    if events.len() == 0 {
        0
    } else if events.last() is Submitted {
        submissions(events.drop_last()) + 1
    } else {
        submissions(events.drop_last())
    }
}

/// How many of the events are answers that the proxy does not know the task.
pub open spec fn missed_answers(events: Seq<PowEvent>) -> nat
    decreases events.len(),
{
    if events.len() == 0 {
        0
    } else if events.last() matches PowEvent::Answered(Some(answer)) && answer.status == MISSED {
        missed_answers(events.drop_last()) + 1
    } else {
        missed_answers(events.drop_last())
    }
}

/// The identifier with which the latest submission was answered.
pub open spec fn latest_id(events: Seq<PowEvent>) -> Option<Seq<char>>
    decreases events.len(),
{
    if events.len() == 0 {
        None
    } else {
        match events.last() {
            PowEvent::Submitted(answer) => Some(answer.id@),
            _ => latest_id(events.drop_last()),
        }
    }
}

/// The client submits its task once, and once more for each answer that the proxy does not know
/// it, and never otherwise: once it is done, as at any time when it asks or waits, there was one
/// submission more than there were such answers.
pub proof fn submits_once_and_again_when_missed(events: Seq<PowEvent>)
    requires
        all_can_follow(PowStateView::Submitting, events),
    ensures
        match after_events(PowStateView::Submitting, events) {
            PowStateView::Submitting => submissions(events) == 0 && missed_answers(events) == 0,
            PowStateView::Resubmitting => submissions(events) == missed_answers(events),
            _ => submissions(events) == missed_answers(events) + 1,
        },
    decreases events.len(),
{
    if events.len() > 0 {
        submits_once_and_again_when_missed(events.drop_last());
    }
}

/// Each question carries the identifier with which the latest submission was answered, and so
/// does each wait before one.
pub proof fn questions_carry_the_latest_id(events: Seq<PowEvent>)
    requires
        all_can_follow(PowStateView::Submitting, events),
    ensures
        match after_events(PowStateView::Submitting, events) {
            PowStateView::Asking(id) => latest_id(events) == Some(id),
            PowStateView::Waiting(id) => latest_id(events) == Some(id),
            _ => true,
        },
    decreases events.len(),
{
    if events.len() > 0 {
        questions_carry_the_latest_id(events.drop_last());
    }
}

/// Between one question and the next the client always waits, whatever the answers are.
pub proof fn waits_between_questions(state: PowStateView, events: Seq<PowEvent>)
    requires
        state is Asking,
        events.len() > 0,
        all_can_follow(state, events),
        after_events(state, events) is Asking,
    ensures
        events.last() is Waited,
        events.first() is Answered,
        events.len() >= 2,
{
    let before = events.drop_last();
    assert(!(after_events(state, before) is Submitting)) by {
        lemma_submits_first_only_once(state, before);
    }
    lemma_first_event(state, events);
    if events.len() == 1 {
        assert(before =~= Seq::<PowEvent>::empty());
    }
}

proof fn lemma_submits_first_only_once(state: PowStateView, events: Seq<PowEvent>)
    requires
        !(state is Submitting),
        all_can_follow(state, events),
    ensures
        !(after_events(state, events) is Submitting),
    decreases events.len(),
{
    if events.len() > 0 {
        lemma_submits_first_only_once(state, events.drop_last());
    }
}

proof fn lemma_first_event(state: PowStateView, events: Seq<PowEvent>)
    requires
        events.len() > 0,
        all_can_follow(state, events),
    ensures
        can_follow(state, events.first()),
    decreases events.len(),
{
    if events.len() > 1 {
        lemma_first_event(state, events.drop_last());
    } else {
        assert(events.drop_last() =~= Seq::<PowEvent>::empty());
    }
}

/// Whether the service that was asked for its health is alive: it is if it answered.
pub fn post_server_check(answered: bool) -> (result: Result<(), ServerDown>)
    ensures
        result is Ok <==> answered,
{
    if answered {
        Ok(())
    } else {
        Err(ServerDown)
    }
}

/// The service does not answer.
#[derive(Debug, Clone, Copy, PartialEq, Eq)]
pub struct ServerDown;

impl ServerDown {
    /// What is said of it.
    pub fn message(&self) -> (text: String)
        ensures
            text@ == "post server doesn't work"@,
    {
        String::from_str("post server doesn't work")
    }
}

} // verus!
