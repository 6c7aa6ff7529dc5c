//! The search for a proof: one group of nonces after the other is handed to the proxy for its
//! proofs of work and then tried on the stored data.

use std::collections::HashMap;
use std::ops::Range;
use vstd::prelude::*;
use vstd::std_specs::hash::*;

verus! {

broadcast use group_hash_axioms;

/// How many bytes of the stored data make a block.
pub const BLOCK_SIZE: u64 = 16;

/// The priority whose proofs of work are computed under the lock.
pub const EXCLUSIVE_PRIORITY: u16 = 1;

/// The number of the block at the position `pos` of the stored data.
pub fn block_at(pos: u64) -> (block: u64)
    ensures
        block == pos / 16,
{
    pos / BLOCK_SIZE
}

/// The number of labels in the stored data.
pub fn num_labels(num_units: u32, labels_per_unit: u64) -> (labels: u64)
    requires
        num_units * labels_per_unit <= u64::MAX,
    ensures
        labels == num_units * labels_per_unit,
{
    num_units as u64 * labels_per_unit
}

/// What is to be done next in the search.
#[derive(Debug)]
pub enum ProofStep {
    /// See whether the search is to be stopped.
    CheckStop,
    /// Report that a group of nonces is begun.
    Announce,
    /// Take the lock.
    Lock,
    /// Get the proofs of work of the group.
    FetchPow,
    /// Try the group on the stored data.
    Scan,
    /// Release the lock; then go on with what was found.
    Unlock(Option<(u32, Vec<u64>)>),
    /// The proof is there: a nonce and its indices.
    Found(u32, Vec<u64>),
    /// The search was stopped.
    Stopped,
    /// Release the lock; then the search has failed.
    Release,
    /// The proofs of work could not be had, or the stored data could not be tried.
    Failed,
}

/// What has become of a step.
#[derive(Debug)]
pub enum ProofEvent {
    /// Whether the search is to be stopped.
    StopFlag(bool),
    /// The step was carried out.
    Done,
    /// What was found in the stored data.
    Scanned(Option<(u32, Vec<u64>)>),
    /// The step could not be carried out.
    Failed,
}

/// A search for a proof.
#[derive(Debug)]
pub struct ProofSearch {
    /// How many nonces make a group.
    pub group_size: u32,
    pub priority: u16,
    /// The group of nonces that is being tried.
    pub nonces: Range<u32>,
    /// Whether the search holds the lock.
    pub locked: bool,
    pub step: ProofStep,
}

/// The nonces of the group with the number `k`.
pub open spec fn nth_group(group_size: u32, k: nat) -> (int, int) {
    (k * group_size, (k + 1) * group_size)
}

/// The search is at the group with the number `k`.
pub open spec fn at_group(search: ProofSearch, k: nat) -> bool {
    (search.nonces.start as int, search.nonces.end as int) == nth_group(search.group_size, k)
}

/// The search holds the lock exactly where it must: to scan and until it has released it
/// afterwards or on a failure, and also to get the proofs of work if its priority is the exclusive
/// one.
pub open spec fn lock_in_order(search: ProofSearch) -> bool {
    search.locked == match search.step {
        ProofStep::Scan | ProofStep::Unlock(_) | ProofStep::Release => true,
        ProofStep::FetchPow => search.priority == EXCLUSIVE_PRIORITY,
        _ => false,
    }
}

/// `event` is one that can follow from the step. A search that goes on needs a next group.
pub open spec fn can_happen(search: ProofSearch, event: ProofEvent) -> bool {
    match search.step {
        ProofStep::CheckStop => event is StopFlag,
        ProofStep::Scan => event is Scanned || event is Failed,
        ProofStep::FetchPow => event is Done || event is Failed,
        ProofStep::Announce | ProofStep::Lock | ProofStep::Release => event is Done,
        ProofStep::Unlock(found) => event is Done && (found is None ==> search.nonces.end
            + search.group_size <= u32::MAX),
        ProofStep::Found(_, _) | ProofStep::Stopped | ProofStep::Failed => false,
    }
}

/// The search has ended.
pub open spec fn has_ended(search: ProofSearch) -> bool {
    search.step is Found || search.step is Stopped || search.step is Failed
}

/// The search after `event`.
pub open spec fn after_step(search: ProofSearch, event: ProofEvent) -> ProofSearch {
    let exclusive = search.priority == EXCLUSIVE_PRIORITY;
    match (search.step, event) {
        (ProofStep::CheckStop, ProofEvent::StopFlag(stop)) => ProofSearch {
            step: if stop {
                ProofStep::Stopped
            } else {
                ProofStep::Announce
            },
            ..search
        },
        (ProofStep::Announce, _) => ProofSearch {
            step: if exclusive {
                ProofStep::Lock
            } else {
                ProofStep::FetchPow
            },
            ..search
        },
        (ProofStep::Lock, _) => ProofSearch {
            locked: true,
            step: if exclusive {
                ProofStep::FetchPow
            } else {
                ProofStep::Scan
            },
            ..search
        },
        (ProofStep::FetchPow, ProofEvent::Failed) => ProofSearch {
            step: if exclusive {
                ProofStep::Release
            } else {
                ProofStep::Failed
            },
            ..search
        },
        (ProofStep::FetchPow, _) => ProofSearch {
            step: if exclusive {
                ProofStep::Scan
            } else {
                ProofStep::Lock
            },
            ..search
        },
        (ProofStep::Scan, ProofEvent::Failed) => ProofSearch { step: ProofStep::Release, ..search },
        (ProofStep::Release, _) => ProofSearch {
            locked: false,
            step: ProofStep::Failed,
            ..search
        },
        (ProofStep::Scan, ProofEvent::Scanned(found)) => ProofSearch {
            step: ProofStep::Unlock(found),
            ..search
        },
        (ProofStep::Unlock(Some((nonce, indices))), _) => ProofSearch {
            locked: false,
            step: ProofStep::Found(nonce, indices),
            ..search
        },
        (ProofStep::Unlock(None), _) => ProofSearch {
            locked: false,
            nonces: Range {
                start: search.nonces.end,
                end: (search.nonces.end + search.group_size) as u32,
            },
            step: ProofStep::CheckStop,
            ..search
        },
        _ => search,
    }
}

/// Begins a search with groups of `nonces_size` nonces, of which the lower 32 bits count.
pub fn generate_proof_remotely(nonces_size: usize, priority: u16) -> (search: ProofSearch)
    ensures
        search.group_size == nonces_size as int % 0x1_0000_0000,
        nonces_size <= u32::MAX ==> search.group_size == nonces_size,
        search.priority == priority,
        search.nonces.start == 0,
        search.nonces.end == search.group_size,
        search.locked == false,
        search.step is CheckStop,
        at_group(search, 0),
        lock_in_order(search),
{
    let wide: u64 = nonces_size as u64;
    assert(wide as u32 == wide % 0x1_0000_0000u64) by (bit_vector);
    let group_size: u32 = #[verifier::truncate]
    (wide as u32);
    proof {
        let size = group_size as int;
        assert(0 * size == 0 && (0 + 1) * size == size) by (nonlinear_arith);
    }
    ProofSearch {
        group_size,
        priority,
        nonces: 0..group_size,
        locked: false,
        step: ProofStep::CheckStop,
    }
}

impl ProofSearch {
    /// Whether `event` is one that can follow from the step.
    pub fn accepts(&self, event: &ProofEvent) -> (accepted: bool)
        ensures
            accepted == can_happen(*self, *event),
            self.step is CheckStop ==> accepted == (*event is StopFlag),
            self.step is Announce || self.step is Lock || self.step is Release ==> accepted == (
            *event is Done),
            self.step is FetchPow ==> accepted == (*event is Done || *event is Failed),
            self.step is Scan ==> accepted == (*event is Scanned || *event is Failed),
            self.step matches ProofStep::Unlock(found) ==> accepted == (*event is Done && (found
                is Some || self.nonces.end + self.group_size <= u32::MAX)),
            self.step is Found || self.step is Stopped || self.step is Failed ==> !accepted,
    {
        match &self.step {
            ProofStep::CheckStop => match event {
                ProofEvent::StopFlag(_) => true,
                _ => false,
            },
            ProofStep::Scan => match event {
                ProofEvent::Scanned(_) | ProofEvent::Failed => true,
                _ => false,
            },
            ProofStep::FetchPow => match event {
                ProofEvent::Done | ProofEvent::Failed => true,
                _ => false,
            },
            ProofStep::Announce | ProofStep::Lock | ProofStep::Release => match event {
                ProofEvent::Done => true,
                _ => false,
            },
            ProofStep::Unlock(found) => match event {
                ProofEvent::Done => found.is_some() || self.nonces.end <= u32::MAX
                    - self.group_size,
                _ => false,
            },
            ProofStep::Found(_, _) | ProofStep::Stopped | ProofStep::Failed => false,
        }
    }

    /// Takes note of what has become of the step, and decides on the next.
    pub fn advance(self, event: ProofEvent) -> (next: Self)
        requires
            can_happen(self, event),
        ensures
            next == after_step(self, event),
            next.group_size == self.group_size,
            next.priority == self.priority,
            self.step is CheckStop ==> next.step is Announce || next.step is Stopped,
            self.step is CheckStop ==> (next.step is Stopped <==> event == ProofEvent::StopFlag(
                true,
            )),
            self.step is Announce ==> (if self.priority == 1 {
                next.step is Lock
            } else {
                next.step is FetchPow
            }),
            self.step is Lock ==> (if self.priority == 1 {
                next.step is FetchPow
            } else {
                next.step is Scan
            }),
            self.step is FetchPow && event is Done ==> (if self.priority == 1 {
                next.step is Scan
            } else {
                next.step is Lock
            }),
            self.step is FetchPow && event is Failed ==> (if self.priority == 1 {
                next.step is Release
            } else {
                next.step is Failed
            }),
            event matches ProofEvent::Scanned(found) ==> next.step == ProofStep::Unlock(found),
            self.step is Scan && event is Failed ==> next.step is Release,
            self.step is Release ==> next.step is Failed,
            self.step matches ProofStep::Unlock(Some((nonce, indices))) ==> next.step
                == ProofStep::Found(nonce, indices),
            self.step matches ProofStep::Unlock(None) ==> {
                &&& next.step is CheckStop
                &&& next.nonces.start == self.nonces.end
                &&& next.nonces.end == self.nonces.end + self.group_size
            },
            !(self.step matches ProofStep::Unlock(None)) ==> next.nonces == self.nonces,
            next.locked == (self.step is Lock || (self.locked && !(self.step is Unlock
                || self.step is Release))),
    {
        let exclusive: bool = self.priority == EXCLUSIVE_PRIORITY;
        match (self.step, event) {
            (ProofStep::CheckStop, ProofEvent::StopFlag(stop)) => ProofSearch {
                group_size: self.group_size,
                priority: self.priority,
                nonces: self.nonces,
                locked: self.locked,
                step: if stop {
                    ProofStep::Stopped
                } else {
                    ProofStep::Announce
                },
            },
            (ProofStep::Announce, _) => ProofSearch {
                group_size: self.group_size,
                priority: self.priority,
                nonces: self.nonces,
                locked: self.locked,
                step: if exclusive {
                    ProofStep::Lock
                } else {
                    ProofStep::FetchPow
                },
            },
            (ProofStep::Lock, _) => ProofSearch {
                group_size: self.group_size,
                priority: self.priority,
                nonces: self.nonces,
                locked: true,
                step: if exclusive {
                    ProofStep::FetchPow
                } else {
                    ProofStep::Scan
                },
            },
            (ProofStep::FetchPow, ProofEvent::Failed) => ProofSearch {
                group_size: self.group_size,
                priority: self.priority,
                nonces: self.nonces,
                locked: self.locked,
                step: if exclusive {
                    ProofStep::Release
                } else {
                    ProofStep::Failed
                },
            },
            (ProofStep::Scan, ProofEvent::Failed) => ProofSearch {
                group_size: self.group_size,
                priority: self.priority,
                nonces: self.nonces,
                locked: self.locked,
                step: ProofStep::Release,
            },
            (ProofStep::Release, _) => ProofSearch {
                group_size: self.group_size,
                priority: self.priority,
                nonces: self.nonces,
                locked: false,
                step: ProofStep::Failed,
            },
            (ProofStep::FetchPow, _) => ProofSearch {
                group_size: self.group_size,
                priority: self.priority,
                nonces: self.nonces,
                locked: self.locked,
                step: if exclusive {
                    ProofStep::Scan
                } else {
                    ProofStep::Lock
                },
            },
            (ProofStep::Scan, ProofEvent::Scanned(found)) => ProofSearch {
                group_size: self.group_size,
                priority: self.priority,
                nonces: self.nonces,
                locked: self.locked,
                step: ProofStep::Unlock(found),
            },
            (ProofStep::Unlock(Some((nonce, indices))), _) => ProofSearch {
                group_size: self.group_size,
                priority: self.priority,
                nonces: self.nonces,
                locked: false,
                step: ProofStep::Found(nonce, indices),
            },
            (ProofStep::Unlock(None), _) => ProofSearch {
                group_size: self.group_size,
                priority: self.priority,
                nonces: self.nonces.end..(self.nonces.end + self.group_size),
                locked: false,
                step: ProofStep::CheckStop,
            },
            (step, _) => ProofSearch {
                group_size: self.group_size,
                priority: self.priority,
                nonces: self.nonces,
                locked: self.locked,
                step,
            },
        }
    }
}

/// Every step of a search keeps the lock in order: it is never taken twice, it is held for every
/// scan, for the proofs of work exactly if the priority is the exclusive one, and it is released
/// before the next group and before the search ends, with a proof, stopped or failed.
pub proof fn lock_stays_in_order(search: ProofSearch, event: ProofEvent)
    requires
        can_happen(search, event),
        lock_in_order(search),
    ensures
        lock_in_order(after_step(search, event)),
        search.step is Lock ==> !search.locked,
        search.step is Unlock || search.step is Release ==> search.locked,
        search.step is Scan ==> search.locked,
        search.step is FetchPow ==> search.locked == (search.priority == EXCLUSIVE_PRIORITY),
        search.step is CheckStop ==> !search.locked,
        has_ended(after_step(search, event)) ==> !after_step(search, event).locked,
{
}

/// A step that fails ends the search, and without the lock: at once if the lock is not held, and
/// otherwise after its release, which is all that can follow.
pub proof fn failure_releases_the_lock(search: ProofSearch)
    requires
        can_happen(search, ProofEvent::Failed),
        lock_in_order(search),
    ensures
        ({
            let next = after_step(search, ProofEvent::Failed);
            if search.locked {
                &&& next.step is Release
                &&& next.locked
                &&& forall|event: ProofEvent| #[trigger]
                    can_happen(next, event) ==> after_step(next, event).step is Failed
                        && !after_step(next, event).locked
                &&& can_happen(next, ProofEvent::Done)
            } else {
                next.step is Failed && !next.locked
            }
        }),
{
}

/// A search goes through the groups in their order: a step stays at its group, or goes from one
/// group to the next, and only after a scan of the group that found nothing.
pub proof fn groups_follow_one_another(search: ProofSearch, event: ProofEvent, k: nat)
    requires
        can_happen(search, event),
        at_group(search, k),
    ensures
        if search.step matches ProofStep::Unlock(None) {
            at_group(after_step(search, event), k + 1)
        } else {
            at_group(after_step(search, event), k)
        },
{
    let size = search.group_size as int;
    assert((k + 1) * size + size == (k + 2) * size) by (nonlinear_arith);
}

/// `searches` are the states through which a search goes, from one that is about to see whether
/// it is to be stopped and does not hold the lock, and `events` what has become of each of its steps.
pub open spec fn is_run(searches: Seq<ProofSearch>, events: Seq<ProofEvent>) -> bool {
    &&& searches.len() == events.len() + 1
    &&& searches[0].step is CheckStop
    &&& !searches[0].locked
    &&& forall|i: int| #![trigger searches[i + 1]]
        0 <= i < events.len() ==> can_happen(searches[i], events[i]) && searches[i + 1]
            == after_step(searches[i], events[i])
}

/// Before every scan of a group of nonces, that same group was announced, the lock was taken once
/// and the proofs of work of that group were got; and before all that the search was not to be
/// stopped. This holds of every group and of every priority.
pub proof fn every_scan_has_its_proofs_of_work(
    searches: Seq<ProofSearch>,
    events: Seq<ProofEvent>,
    scan: int,
)
    requires
        is_run(searches, events),
        0 <= scan < searches.len(),
        searches[scan].step is Scan,
    ensures
        scan >= 4,
        searches[scan - 4].step is CheckStop,
        events[scan - 4] == ProofEvent::StopFlag(false),
        searches[scan - 3].step is Announce,
        events[scan - 3] is Done,
        exists|fetch: int|
            {
                &&& scan - 3 < fetch < scan
                &&& (#[trigger] searches[fetch]).step is FetchPow
                &&& events[fetch] is Done
                &&& searches[fetch].locked == (searches[fetch].priority == 1)
            },
        exists|lock: int|
            scan - 3 < lock < scan && (#[trigger] searches[lock]).step is Lock
                && events[lock] is Done && !searches[lock].locked,
        searches[scan].locked,
        forall|i: int|
            scan - 4 <= i < scan ==> (#[trigger] searches[i]).nonces == searches[scan].nonces,
{
    lemma_run_is_in_order(searches, events, scan);
    lemma_step_before(searches, events, scan);
    lemma_step_before(searches, events, scan - 1);
    lemma_step_before(searches, events, scan - 2);
    lemma_step_before(searches, events, scan - 3);
    lemma_run_is_in_order(searches, events, scan - 1);
    lemma_run_is_in_order(searches, events, scan - 2);
    if searches[scan].priority == 1 {
        assert(searches[scan - 1].step is FetchPow);
        assert(searches[scan - 2].step is Lock);
    } else {
        assert(searches[scan - 2].step is FetchPow);
        assert(searches[scan - 1].step is Lock);
    }
}

proof fn lemma_run_is_in_order(searches: Seq<ProofSearch>, events: Seq<ProofEvent>, i: int)
    requires
        is_run(searches, events),
        0 <= i < searches.len(),
    ensures
        lock_in_order(searches[i]),
    decreases i,
{
    if i > 0 {
        lemma_run_is_in_order(searches, events, i - 1);
        lemma_step_before(searches, events, i);
        lock_stays_in_order(searches[i - 1], events[i - 1]);
    }
}

proof fn lemma_step_before(searches: Seq<ProofSearch>, events: Seq<ProofEvent>, i: int)
    requires
        is_run(searches, events),
        0 <= i < searches.len(),
    ensures
        i == 0 ==> searches[i].step is CheckStop,
        i > 0 ==> can_happen(searches[i - 1], events[i - 1]) && searches[i] == after_step(
            searches[i - 1],
            events[i - 1],
        ),
{
    if i > 0 {
        assert(searches[(i - 1) + 1] == after_step(searches[i - 1], events[i - 1]));
    }
}

/// A search that is not to be stopped and whose steps succeed comes to the scan of its group in
/// four steps, with the lock, whatever the group and the priority; from there it is two steps to
/// the proof if the scan found one, and to the next group if it found none.
pub proof fn every_group_comes_to_its_scan(search: ProofSearch, found: Option<(u32, Vec<u64>)>)
    requires
        search.step is CheckStop,
        !search.locked,
        search.nonces.end + search.group_size <= u32::MAX,
    ensures
        ({
            let announcing = after_step(search, ProofEvent::StopFlag(false));
            let second = after_step(announcing, ProofEvent::Done);
            let third = after_step(second, ProofEvent::Done);
            let scanning = after_step(third, ProofEvent::Done);
            let unlocking = after_step(scanning, ProofEvent::Scanned(found));
            let last = after_step(unlocking, ProofEvent::Done);
            &&& can_happen(search, ProofEvent::StopFlag(false))
            &&& can_happen(announcing, ProofEvent::Done)
            &&& can_happen(second, ProofEvent::Done)
            &&& can_happen(third, ProofEvent::Done)
            &&& can_happen(scanning, ProofEvent::Scanned(found))
            &&& can_happen(unlocking, ProofEvent::Done)
            &&& announcing.step is Announce
            &&& second.step is FetchPow || third.step is FetchPow
            &&& scanning.step is Scan
            &&& scanning.locked
            &&& scanning.nonces == search.nonces
            &&& !last.locked
            &&& last.priority == search.priority
            &&& last.group_size == search.group_size
            &&& found matches Some((nonce, indices)) ==> last.step == ProofStep::Found(
                nonce,
                indices,
            ) && last.nonces == search.nonces
            &&& found is None ==> {
                &&& last.step is CheckStop
                &&& last.nonces.start == search.nonces.end
                &&& last.nonces.end == search.nonces.end + search.group_size
            }
        }),
{
}

/// `after` may be the search after one step from `before`.
pub open spec fn may_advance(before: ProofSearch, after: ProofSearch) -> bool {
    exists|event: ProofEvent|
        can_happen(before, event) && after == #[trigger] after_step(before, event)
}

/// However a search goes on, its lock stays in order: it is held for every scan, for the proofs
/// of work exactly if the priority is the exclusive one, and neither before a group nor once the
/// search has ended. The search is always at one of its groups.
pub proof fn search_stays_in_order(history: Seq<ProofSearch>)
    requires
        history.len() > 0,
        lock_in_order(history.first()),
        at_group(history.first(), 0),
        forall|i: int|
            0 < i < history.len() ==> may_advance(history[i - 1], #[trigger] history[i]),
    ensures
        lock_in_order(history.last()),
        history.last().step is Scan ==> history.last().locked,
        history.last().step is FetchPow ==> history.last().locked == (history.last().priority
            == EXCLUSIVE_PRIORITY),
        history.last().step is CheckStop ==> !history.last().locked,
        has_ended(history.last()) ==> !history.last().locked,
        exists|k: nat| k < history.len() && #[trigger] at_group(history.last(), k),
    decreases history.len(),
{
    if history.len() > 1 {
        let earlier = history.drop_last();
        assert forall|i: int| 0 < i < earlier.len() implies may_advance(
            earlier[i - 1],
            #[trigger] earlier[i],
        ) by {
            assert(earlier[i] == history[i]);
        }
        search_stays_in_order(earlier);
        let last = history.len() - 1;
        let before = history[last - 1];
        assert(before == earlier.last());
        assert(may_advance(history[last - 1], history[last]));
        let event = choose|event: ProofEvent|
            can_happen(before, event) && history[last] == #[trigger] after_step(before, event);
        let k = choose|k: nat| k < earlier.len() && #[trigger] at_group(earlier.last(), k);
        lock_stays_in_order(before, event);
        groups_follow_one_another(before, event, k);
        if at_group(history.last(), k) {
        } else {
            assert(at_group(history.last(), k + 1));
        }
    } else {
        assert(at_group(history.last(), 0));
    }
}

/// Every nonce is in exactly one group.
pub proof fn every_nonce_is_in_one_group(group_size: u32, nonce: nat, k: nat)
    requires
        group_size > 0,
    ensures
        nth_group(group_size, k).0 <= nonce < nth_group(group_size, k).1 <==> k == nonce
            / group_size as nat,
{
    let size = group_size as nat;
    assert(k * size <= nonce < (k + 1) * size <==> k == nonce / size) by (nonlinear_arith)
        requires
            size > 0,
    ;
}

/// A search ends with a proof exactly if the scan of a group found one, and with that one; it is
/// stopped exactly if it was to be stopped before a group, and has failed exactly if a step
/// failed and the lock, where it was held, has been released.
pub proof fn search_ends_with_what_was_found(search: ProofSearch, event: ProofEvent)
    requires
        can_happen(search, event),
    ensures
        after_step(search, event).step is Found <==> (search.step matches ProofStep::Unlock(
            found,
        ) && found is Some),
        search.step matches ProofStep::Unlock(Some((nonce, indices))) ==> after_step(
            search,
            event,
        ).step == ProofStep::Found(nonce, indices),
        after_step(search, event).step is Stopped <==> (search.step is CheckStop && event
            == ProofEvent::StopFlag(true)),
        after_step(search, event).step is Failed <==> (search.step is Release || (search.step
            is FetchPow && event is Failed && search.priority != EXCLUSIVE_PRIORITY)),
        after_step(search, event).step is Release <==> (event is Failed && (search.step is Scan
            || search.priority == EXCLUSIVE_PRIORITY)),
{
}

/// The indices that have been found so far for each nonce.
pub struct IndexCollector {
    indexes: HashMap<u32, Vec<u64>>,
}

impl View for IndexCollector {
    type V = Map<u32, Seq<u64>>;

    closed spec fn view(&self) -> Map<u32, Seq<u64>> {
        self.indexes@.map_values(|indices: Vec<u64>| indices@)
    }
}

/// The indices that are held for `nonce`.
pub open spec fn held(collected: Map<u32, Seq<u64>>, nonce: u32) -> Seq<u64> {
    if collected.contains_key(nonce) {
        collected[nonce]
    } else {
        Seq::empty()
    }
}

/// The collection after an index was noted.
pub open spec fn after_index(
    collected: Map<u32, Seq<u64>>,
    nonce: u32,
    index: u64,
    k2: u32,
) -> Map<u32, Seq<u64>> {
    let grown = held(collected, nonce).push(index);
    if grown.len() >= k2 {
        collected.insert(nonce, Seq::empty())
    } else {
        collected.insert(nonce, grown)
    }
}

impl IndexCollector {
    /// No index has been found.
    pub fn new() -> (collector: Self)
        ensures
            collector@ == Map::<u32, Seq<u64>>::empty(),
    {
        let collector = IndexCollector { indexes: HashMap::new() };
        assert(collector@ =~= Map::<u32, Seq<u64>>::empty());
        collector
    }

    /// Takes note of an index of a nonce. Once `k2` of them are there, gives them out and holds
    /// none for that nonce.
    pub fn collect(&mut self, nonce: u32, index: u64, k2: u32) -> (full: Option<Vec<u64>>)
        ensures
            ({
                let grown = held(old(self)@, nonce).push(index);
                if grown.len() >= k2 {
                    full matches Some(indices) && indices@ == grown
                } else {
                    full is None
                }
            }),
            final(self)@ == after_index(old(self)@, nonce, index, k2),
            ({
                let before = if old(self)@.contains_key(nonce) {
                    old(self)@[nonce]
                } else {
                    Seq::empty()
                };
                &&& full is Some <==> before.len() + 1 >= k2
                &&& full matches Some(indices) ==> indices@ == before.push(index)
                &&& final(self)@ == old(self)@.insert(
                    nonce,
                    if full is Some {
                        Seq::empty()
                    } else {
                        before.push(index)
                    },
                )
            }),
    {
        let mut indices: Vec<u64> = match self.indexes.remove(&nonce) {
            Some(indices) => indices,
            None => Vec::new(),
        };
        assert(indices@ =~= held(old(self)@, nonce));
        indices.push(index);
        if indices.len() >= k2 as usize {
            let none: Vec<u64> = Vec::new();
            self.indexes.insert(nonce, none);
            assert(self@ =~= old(self)@.insert(nonce, Seq::empty()));
            return Some(indices);
        }
        self.indexes.insert(nonce, indices);
        assert(self@ =~= old(self)@.insert(nonce, indices@));
        None
    }
}

/// Fewer indices are held for each nonce than make a proof.
pub open spec fn none_is_full(collected: Map<u32, Seq<u64>>, k2: u32) -> bool {
    forall|nonce: u32| #[trigger]
        collected.contains_key(nonce) ==> collected[nonce].len() < k2 || collected[nonce].len() == 0
}

/// Indices are given out in portions of exactly `k2`, or one by one if `k2` is zero; the indices
/// of other nonces stay as they are.
pub proof fn portions_have_the_size_of_a_proof(
    collected: Map<u32, Seq<u64>>,
    nonce: u32,
    index: u64,
    k2: u32,
)
    requires
        none_is_full(collected, k2),
    ensures
        none_is_full(after_index(collected, nonce, index, k2), k2),
        ({
            let grown = held(collected, nonce).push(index);
            grown.len() >= k2 ==> grown.len() == if k2 == 0 {
                1
            } else {
                k2 as int
            }
        }),
        forall|other: u32|
            other != nonce ==> #[trigger] held(after_index(collected, nonce, index, k2), other)
                == held(collected, other),
{
    let after = after_index(collected, nonce, index, k2);
    assert forall|n: u32| #[trigger] after.contains_key(n) implies after[n].len() < k2
        || after[n].len() == 0 by {
        if n != nonce {
            assert(collected.contains_key(n));
        }
    }
}

/// The collection after several indices of one nonce were noted.
pub open spec fn after_indices(
    collected: Map<u32, Seq<u64>>,
    nonce: u32,
    indices: Seq<u64>,
    k2: u32,
) -> Map<u32, Seq<u64>>
    decreases indices.len(),
{
    if indices.len() == 0 {
        collected
    } else {
        after_index(
            after_indices(collected, nonce, indices.drop_last(), k2),
            nonce,
            indices.last(),
            k2,
        )
    }
}

/// Fewer than `k2` indices of a nonce are all held, in the order in which they were found, so
/// that the one that makes them `k2` gives out exactly these.
pub proof fn indices_are_held_in_order(
    collected: Map<u32, Seq<u64>>,
    nonce: u32,
    indices: Seq<u64>,
    k2: u32,
)
    requires
        held(collected, nonce) == Seq::<u64>::empty(),
        indices.len() < k2,
    ensures
        held(after_indices(collected, nonce, indices, k2), nonce) == indices,
    decreases indices.len(),
{
    if indices.len() > 0 {
        indices_are_held_in_order(collected, nonce, indices.drop_last(), k2);
        assert(indices.drop_last().push(indices.last()) =~= indices);
    }
}

} // verus!
