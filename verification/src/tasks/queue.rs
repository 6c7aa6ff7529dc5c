//! The tasks that wait for a worker, in a `priority_queue::PriorityQueue`.

use priority_queue::PriorityQueue;
use std::cmp::Reverse;
use std::hash::RandomState;
use vstd::prelude::*;
use vstd::seq_lib::*;

use crate::messages::{TaskSubmit, TaskView};
use crate::text::{hex_text, key_of_node, task_key};

verus! {

/// Declares `std::cmp::Reverse`.
#[verifier::external_type_specification]
#[verifier::external_body]
#[verifier::reject_recursive_types(T)]
pub struct ExReverse<T>(Reverse<T>);

/// Declares `priority_queue::PriorityQueue`.
#[verifier::external_type_specification]
#[verifier::external_body]
#[verifier::reject_recursive_types(I)]
#[verifier::reject_recursive_types(P)]
#[verifier::reject_recursive_types(H)]
pub struct ExPriorityQueue<I, P, H>(PriorityQueue<I, P, H>);

/// The fields of a task, in the order in which the task declares them. The queue holds tasks in
/// this form, whose equality and hash are those of std's types.
pub type QueuedTask = (u16, [u8; 32], u32, u32, u64, [u8; 32], [u8; 32], String);

/// The task whose fields these are.
pub open spec fn task_of(fields: QueuedTask) -> TaskView {
    TaskView {
        priority: fields.0,
        challenge: fields.1@,
        start_nonce: fields.2,
        end_nonce: fields.3,
        difficulty: fields.4,
        pow_difficulty: fields.5@,
        node_id: fields.6@,
        pow_flags: fields.7@,
    }
}

/// The tasks that a queue holds, each with its priority; a task occurs at most once.
pub uninterp spec fn queued(
    queue: PriorityQueue<QueuedTask, Reverse<u16>, RandomState>,
) -> Map<TaskView, u16>;

/// The tasks of a list of references.
pub open spec fn tasks_of(items: Seq<&QueuedTask>) -> Seq<TaskView> {
    items.map_values(|item: &QueuedTask| task_of(*item))
}

/// A list of `length` different tasks holds exactly the tasks of `tasks`.
pub open spec fn lists_once(tasks: Set<TaskView>, length: nat) -> bool {
    exists|list: Seq<TaskView>|
        {
            &&& list.len() == length
            &&& list.no_duplicates()
            &&& #[trigger] list.to_set() == tasks
        }
}

/// `task` waits, and no task that waits has a lower number for its priority.
pub open spec fn foremost(queue: Map<TaskView, u16>, task: TaskView) -> bool {
    &&& queue.contains_key(task)
    &&& forall|other: TaskView| #[trigger]
        queue.contains_key(other) ==> queue[task] <= queue[other]
}

/// Calls `PriorityQueue::new`, which makes an empty queue.
#[verifier::external_body]
fn queue_new() -> (queue: PriorityQueue<QueuedTask, Reverse<u16>, RandomState>)
    ensures
        queued(queue).dom() == Set::<TaskView>::empty(),
{
    PriorityQueue::new()
}

/// Calls `PriorityQueue::push`, which inserts an item with its priority, or gives an equal item
/// that is there already that priority. The priority is wrapped in `Reverse`, so that a lower
/// number is a greater priority.
#[verifier::external_body]
fn queue_push(
    queue: &mut PriorityQueue<QueuedTask, Reverse<u16>, RandomState>,
    item: QueuedTask,
    priority: u16,
)
    ensures
        queued(*final(queue)) == queued(*old(queue)).insert(task_of(item), priority),
{
    queue.push(item, Reverse(priority));
}

/// Calls `PriorityQueue::pop`, which removes and returns an item of the greatest priority, here
/// the lowest number, or returns `None` if the queue is empty. Which of several items of that
/// priority leaves is left open.
#[verifier::external_body]
fn queue_pop(queue: &mut PriorityQueue<QueuedTask, Reverse<u16>, RandomState>) -> (item: Option<
    QueuedTask,
>)
    ensures
        match item {
            Some(fields) => {
                &&& foremost(queued(*old(queue)), task_of(fields))
                &&& queued(*final(queue)) == queued(*old(queue)).remove(task_of(fields))
            },
            None => {
                &&& queued(*old(queue)) == Map::<TaskView, u16>::empty()
                &&& queued(*final(queue)) == queued(*old(queue))
            },
        },
{
    queue.pop().map(|entry| entry.0)
}

/// Calls `PriorityQueue::iter`, which goes once over each item, in arbitrary order.
#[verifier::external_body]
fn queue_items(queue: &PriorityQueue<QueuedTask, Reverse<u16>, RandomState>) -> (items: Vec<
    &QueuedTask,
>)
    ensures
        tasks_of(items@).no_duplicates(),
        tasks_of(items@).to_set() == queued(*queue).dom(),
{
    queue.iter().map(|entry| entry.0).collect()
}

/// Calls `PriorityQueue::len`, which is the number of items.
#[verifier::external_body]
fn queue_len(queue: &PriorityQueue<QueuedTask, Reverse<u16>, RandomState>) -> (length: usize)
    ensures
        lists_once(queued(*queue).dom(), length as nat),
{
    queue.len()
}

/// The tasks that wait for a worker.
pub struct TaskQueue {
    inner: PriorityQueue<QueuedTask, Reverse<u16>, RandomState>,
}

impl View for TaskQueue {
    type V = Map<TaskView, u16>;

    /// The tasks that wait, each with its priority.
    closed spec fn view(&self) -> Map<TaskView, u16> {
        queued(self.inner)
    }
}

fn into_fields(task: TaskSubmit) -> (fields: QueuedTask)
    ensures
        task_of(fields) == task@,
{
    (
        task.priority,
        task.challenge,
        task.start_nonce,
        task.end_nonce,
        task.difficulty,
        task.pow_difficulty,
        task.node_id,
        task.pow_flags,
    )
}

fn from_fields(fields: QueuedTask) -> (task: TaskSubmit)
    ensures
        task@ == task_of(fields),
{
    TaskSubmit {
        priority: fields.0,
        challenge: fields.1,
        start_nonce: fields.2,
        end_nonce: fields.3,
        difficulty: fields.4,
        pow_difficulty: fields.5,
        node_id: fields.6,
        pow_flags: fields.7,
    }
}

fn same_identity(a: &[u8; 32], b: &[u8; 32]) -> (same: bool)
    ensures
        same == (a@ == b@),
{
    let mut i: usize = 0;
    while i < 32
        invariant
            i <= 32,
            forall|j: int| 0 <= j < i ==> a@[j] == b@[j],
        decreases 32 - i,
    {
        if a[i] != b[i] {
            assert(a@[i as int] != b@[i as int]);
            return false;
        }
        i = i + 1;
    }
    assert(a@ =~= b@);
    true
}

/// A task of the node `node_id` waits.
pub open spec fn waits_for_node(queue: Map<TaskView, u16>, node_id: Seq<u8>) -> bool {
    exists|task: TaskView| #[trigger] queue.contains_key(task) && task.node_id == node_id
}

/// A task waits whose key is `key`.
pub open spec fn waits_under_key(queue: Map<TaskView, u16>, key: Seq<char>) -> bool {
    exists|task: TaskView| #[trigger] queue.contains_key(task) && task_key(task.node_id) == key
}

impl TaskQueue {
    /// A queue without tasks.
    pub fn new() -> (queue: Self)
        ensures
            queue@ == Map::<TaskView, u16>::empty(),
    {
        let queue = TaskQueue { inner: queue_new() };
        assert(queue@ =~= Map::<TaskView, u16>::empty());
        queue
    }

    /// Adds a task, with the priority that it asks for.
    pub fn push(&mut self, task: TaskSubmit)
        ensures
            final(self)@ == old(self)@.insert(task@, task.priority),
    {
        let priority: u16 = task.priority;
        queue_push(&mut self.inner, into_fields(task), priority);
    }

    /// Takes out a task whose priority no other undercuts.
    pub fn pop(&mut self) -> (popped: Option<TaskSubmit>)
        ensures
            match popped {
                Some(task) => {
                    &&& foremost(old(self)@, task@)
                    &&& final(self)@ == old(self)@.remove(task@)
                    &&& old(self)@.contains_key(task@)
                    &&& forall|other: TaskView| #[trigger]
                        old(self)@.contains_key(other) ==> old(self)@[task@] <= old(self)@[other]
                },
                None => {
                    &&& old(self)@ == Map::<TaskView, u16>::empty()
                    &&& final(self)@ == old(self)@
                },
            },
    {
        match queue_pop(&mut self.inner) {
            Some(fields) => Some(from_fields(fields)),
            None => None,
        }
    }

    /// Whether a task of the node waits.
    pub fn holds_node(&self, node_id: &[u8; 32]) -> (held: bool)
        ensures
            held == waits_for_node(self@, node_id@),
            held <==> exists|task: TaskView| #[trigger]
                self@.contains_key(task) && task.node_id == node_id@,
    {
        let items = queue_items(&self.inner);
        let ghost tasks = tasks_of(items@);
        let mut i: usize = 0;
        while i < items.len()
            invariant
                i <= items.len(),
                tasks == tasks_of(items@),
                tasks.to_set() == self@.dom(),
                forall|j: int| 0 <= j < i ==> (#[trigger] tasks[j]).node_id != node_id@,
            decreases items.len() - i,
        {
            if same_identity(&items[i].6, node_id) {
                assert(tasks.contains(tasks[i as int]));
                assert(self@.dom().contains(tasks[i as int]));
                assert(self@.contains_key(tasks[i as int]));
                return true;
            }
            i = i + 1;
        }
        assert forall|task: TaskView| #[trigger] self@.contains_key(task) implies task.node_id
            != node_id@ by {
            assert(tasks.to_set().contains(task));
            let j = tasks.index_of(task);
            assert(tasks[j].node_id != node_id@);
        }
        false
    }

    /// Whether a task waits whose key is `key`.
    pub fn holds_key(&self, key: &String) -> (held: bool)
        ensures
            held == waits_under_key(self@, key@),
            held <==> exists|task: TaskView| #[trigger]
                self@.contains_key(task) && hex_text(task.node_id) == key@,
    {
        let items = queue_items(&self.inner);
        let ghost tasks = tasks_of(items@);
        let mut i: usize = 0;
        while i < items.len()
            invariant
                i <= items.len(),
                tasks == tasks_of(items@),
                tasks.to_set() == self@.dom(),
                forall|j: int| 0 <= j < i ==> task_key((#[trigger] tasks[j]).node_id) != key@,
            decreases items.len() - i,
        {
            if key_of_node(&items[i].6).eq(key) {
                assert(tasks.contains(tasks[i as int]));
                assert(self@.dom().contains(tasks[i as int]));
                assert(self@.contains_key(tasks[i as int]));
                return true;
            }
            i = i + 1;
        }
        assert forall|task: TaskView| #[trigger] self@.contains_key(task) implies task_key(
            task.node_id,
        ) != key@ by {
            assert(tasks.to_set().contains(task));
            let j = tasks.index_of(task);
            assert(task_key(tasks[j].node_id) != key@);
        }
        false
    }

    /// Whether no task waits.
    pub fn is_empty(&self) -> (empty: bool)
        ensures
            empty == (self@ == Map::<TaskView, u16>::empty()),
    {
        let length: usize = self.len();
        proof {
            if length == 0 {
                assert(self@.dom() =~= Set::<TaskView>::empty());
                assert(self@ =~= Map::<TaskView, u16>::empty());
            }
        }
        length == 0
    }

    /// How many tasks wait.
    pub fn len(&self) -> (length: usize)
        ensures
            self@.dom().finite(),
            length == self@.len(),
    {
        let length: usize = queue_len(&self.inner);
        proof {
            let list = choose|list: Seq<TaskView>|
                {
                    &&& list.len() == length
                    &&& list.no_duplicates()
                    &&& #[trigger] list.to_set() == self@.dom()
                };
            seq_to_set_is_finite(list);
            list.unique_seq_to_set();
        }
        length
    }
}

/// `list` is an order in which the tasks of `queue` can be taken out, one after the other.
pub open spec fn drains(queue: Map<TaskView, u16>, list: Seq<TaskView>) -> bool
    decreases list.len(),
{
    if list.len() == 0 {
        queue == Map::<TaskView, u16>::empty()
    } else {
        foremost(queue, list[0]) && drains(queue.remove(list[0]), list.drop_first())
    }
}

/// However a queue is emptied, each of its tasks comes out, each once, and none before another
/// with a lower number for its priority.
pub proof fn tasks_leave_in_order(queue: Map<TaskView, u16>, list: Seq<TaskView>)
    requires
        drains(queue, list),
    ensures
        list.no_duplicates(),
        list.to_set() == queue.dom(),
        forall|i: int, j: int|
            0 <= i <= j < list.len() ==> queue[#[trigger] list[i]] <= queue[#[trigger] list[j]],
    decreases list.len(),
{
    if list.len() == 0 {
        assert(list.to_set() =~= queue.dom());
    } else {
        let first = list[0];
        let rest = queue.remove(first);
        let tail = list.drop_first();
        tasks_leave_in_order(rest, tail);
        assert forall|j: int| 0 < j < list.len() implies rest.contains_key(#[trigger] list[j]) by {
            assert(tail[j - 1] == list[j]);
            assert(tail.to_set().contains(list[j]));
        }
        assert forall|i: int, j: int| 0 <= i < j < list.len() implies #[trigger] list[i]
            != #[trigger] list[j] by {
            assert(tail[j - 1] == list[j]);
            if i > 0 {
                assert(tail[i - 1] == list[i]);
            }
        }
        assert forall|i: int, j: int| 0 <= i <= j < list.len() implies queue[#[trigger] list[i]]
            <= queue[#[trigger] list[j]] by {
            if i == 0 {
                assert(queue.contains_key(list[j]));
            } else {
                assert(tail[i - 1] == list[i]);
                assert(tail[j - 1] == list[j]);
            }
        }
        assert forall|task: TaskView| queue.dom().contains(task) implies list.to_set().contains(
            task,
        ) by {
            if task != first {
                assert(rest.dom().contains(task));
                assert(tail.contains(task));
                let j = tail.index_of(task);
                assert(list[j + 1] == task);
            }
        }
        assert forall|task: TaskView| list.to_set().contains(task) implies queue.dom().contains(
            task,
        ) by {
            let j = list.index_of(task);
            if j > 0 {
                assert(rest.contains_key(list[j]));
            }
        }
        assert(list.to_set() =~= queue.dom());
    }
}

} // verus!
