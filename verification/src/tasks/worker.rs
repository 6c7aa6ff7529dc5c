//! A worker: it gets tasks from the proxy and returns their proofs of work.

use std::collections::HashMap;
use std::ops::Range;
use vstd::prelude::*;
use vstd::std_specs::hash::*;

use crate::messages::codec::{PowMessage, PowRequest, PowRequestView, PowResponse, Register};

verus! {

broadcast use group_hash_axioms;

/// How many nonces share a proof of work.
pub const NONCES_PER_AES: u32 = 16;

/// The first nonce group of the nonces from `start` on.
pub open spec fn first_group(start: u32, per_aes: u32) -> int {
    start as int / per_aes as int
}

/// The number of groups that the nonces below `end` fill or begin.
pub open spec fn groups_below(end: u32, per_aes: u32) -> int {
    (end as int + per_aes as int - 1) / per_aes as int
}

/// The end of the nonce groups of the nonces from `start` to before `end`: there is always one.
pub open spec fn last_group(start: u32, end: u32, per_aes: u32) -> int {
    if first_group(start, per_aes) + 1 > groups_below(end, per_aes) {
        first_group(start, per_aes) + 1
    } else {
        groups_below(end, per_aes)
    }
}

/// The nonce groups of `nonces` can be computed without overflow.
pub open spec fn groups_fit(start: u32, end: u32, per_aes: u32) -> bool {
    &&& per_aes > 0
    &&& end + per_aes <= u32::MAX
    &&& first_group(start, per_aes) + 1 <= u32::MAX
}

/// The groups of `per_aes` nonces to which the nonces of `nonces` belong.
pub fn nonce_group_range(nonces: Range<u32>, per_aes: u32) -> (groups: Range<u32>)
    requires
        groups_fit(nonces.start, nonces.end, per_aes),
    ensures
        groups.start == first_group(nonces.start, per_aes),
        groups.end == last_group(nonces.start, nonces.end, per_aes),
        groups.start == nonces.start as int / per_aes as int,
        nonces.start < nonces.end ==> groups.end == (nonces.end - 1) / per_aes as int + 1,
        nonces.start >= nonces.end ==> groups.end == groups.start + 1,
{
    proof {
        groups_reach_from_the_first_to_the_last_nonce(nonces.start, nonces.end, per_aes);
    }
    let start_group: u32 = nonces.start / per_aes;
    let below: u32 = (nonces.end + per_aes - 1) / per_aes;
    let end_group: u32 = if start_group + 1 > below {
        start_group + 1
    } else {
        below
    };
    start_group..end_group
}

/// The groups of a range reach from the group of its first nonce to that of its last one; a range
/// without nonces has the one group of its start.
pub proof fn groups_reach_from_the_first_to_the_last_nonce(start: u32, end: u32, per_aes: u32)
    requires
        per_aes > 0,
    ensures
        first_group(start, per_aes) == start as int / per_aes as int,
        start < end ==> last_group(start, end, per_aes) == (end - 1) / per_aes as int + 1,
        start >= end ==> last_group(start, end, per_aes) == start as int / per_aes as int + 1,
{
    let p = per_aes as int;
    let s = start as int;
    let e = end as int;
    if start < end {
        assert((e + p - 1) / p == (e - 1) / p + 1) by (nonlinear_arith)
            requires
                p > 0,
        ;
        assert(s / p <= (e - 1) / p) by (nonlinear_arith)
            requires
                s <= e - 1,
                p > 0,
        ;
    } else {
        assert((e + p - 1) / p <= s / p + 1) by (nonlinear_arith)
            requires
                e <= s,
                p > 0,
        ;
    }
}

/// The groups of a range can be computed exactly if the end of the range and the size of a group
/// add up to a number of 32 bits, and so does the group of its start and one.
pub proof fn groups_fit_in_a_word(start: u32, end: u32, per_aes: u32)
    ensures
        groups_fit(start, end, per_aes) <==> {
            &&& per_aes > 0
            &&& end + per_aes < 0x1_0000_0000
            &&& start as int / (per_aes as int) < 0xffff_ffff
        },
{
}

/// The nonce belongs to the group.
pub open spec fn in_group(nonce: int, group: int, per_aes: u32) -> bool {
    nonce / per_aes as int == group
}

/// Every nonce of a range belongs to one of the range's groups.
pub proof fn nonce_belongs_to_a_group(start: u32, end: u32, per_aes: u32, nonce: int)
    requires
        per_aes > 0,
        start <= nonce < end,
    ensures
        first_group(start, per_aes) <= nonce / per_aes as int,
        nonce / (per_aes as int) < last_group(start, end, per_aes),
{
    let p = per_aes as int;
    assert(start as int / p <= nonce / p) by (nonlinear_arith)
        requires
            start <= nonce,
            p > 0,
    ;
    assert(nonce / p < (end as int + p - 1) / p) by (nonlinear_arith)
        requires
            0 <= nonce < end,
            p > 0,
    ;
}

/// Every group of a range that holds nonces holds one of them.
pub proof fn group_holds_a_nonce(start: u32, end: u32, per_aes: u32, group: int)
    requires
        per_aes > 0,
        start < end,
        first_group(start, per_aes) <= group < last_group(start, end, per_aes),
    ensures
        exists|nonce: int| start <= nonce < end && #[trigger] in_group(nonce, group, per_aes),
{
    let p = per_aes as int;
    if group == first_group(start, per_aes) {
        assert(in_group(start as int, group, per_aes));
    } else {
        let nonce = group * p;
        assert(nonce / p == group) by (nonlinear_arith)
            requires
                nonce == group * p,
                p > 0,
        ;
        assert(start <= nonce) by (nonlinear_arith)
            requires
                start as int / p < group,
                nonce == group * p,
                p > 0,
        ;
        assert(nonce < end) by (nonlinear_arith)
            requires
                group < (end as int + p - 1) / p,
                nonce == group * p,
                p > 0,
        ;
        assert(in_group(nonce, group, per_aes));
    }
}

/// What the prover is asked for one nonce group.
#[derive(Debug, Clone, Copy, PartialEq, Eq)]
pub struct ProverCall {
    pub nonce_group: u8,
    /// The first eight bytes of the challenge.
    pub challenge: [u8; 8],
    pub pow_difficulty: [u8; 32],
    pub miner_id: [u8; 32],
}

/// The task can be computed: its nonce groups can be, and each has a number below 256.
pub open spec fn can_compute(order: PowRequestView) -> bool {
    &&& groups_fit(order.start_nonce, order.end_nonce, NONCES_PER_AES)
    &&& last_group(order.start_nonce, order.end_nonce, NONCES_PER_AES) <= 256
}

/// Whether the task can be computed.
pub fn is_computable(order: &PowRequest) -> (computable: bool)
    ensures
        computable == can_compute(order@),
        computable <==> {
            &&& order.end_nonce < 0xffff_fff0
            &&& order.start_nonce / 16 < 256
            &&& order.start_nonce < order.end_nonce ==> (order.end_nonce - 1) / 16 < 256
        },
{
    proof {
        groups_reach_from_the_first_to_the_last_nonce(
            order.start_nonce,
            order.end_nonce,
            NONCES_PER_AES,
        );
    }
    if order.end_nonce > u32::MAX - NONCES_PER_AES {
        return false;
    }
    nonce_group_range(order.start_nonce..order.end_nonce, NONCES_PER_AES).end <= 256
}

/// How many nonce groups the task has.
pub open spec fn group_count(order: PowRequestView) -> int {
    last_group(order.start_nonce, order.end_nonce, NONCES_PER_AES) - first_group(
        order.start_nonce,
        NONCES_PER_AES,
    )
}

/// What the prover is asked for each nonce group of the task, in their order.
pub fn prover_calls(order: &PowRequest) -> (calls: Vec<ProverCall>)
    requires
        can_compute(order@),
    ensures
        calls@.len() == group_count(order@),
        order.start_nonce < order.end_nonce ==> calls@.len() == (order.end_nonce - 1) / 16
            - order.start_nonce / 16 + 1,
        order.start_nonce >= order.end_nonce ==> calls@.len() == 1,
        forall|i: int|
            0 <= i < calls@.len() ==> {
                let call = #[trigger] calls@[i];
                &&& call.nonce_group == order.start_nonce / 16 + i
                &&& call.pow_difficulty == order.pow_difficulty
                &&& call.miner_id == order.node_id
                &&& forall|k: int| 0 <= k < 8 ==> call.challenge@[k] == order.challenge@[k]
            },
        forall|i: int|
            0 <= i < calls@.len() ==> {
                let call = #[trigger] calls@[i];
                &&& call.nonce_group == first_group(order.start_nonce, NONCES_PER_AES) + i
                &&& call.challenge@ == order.challenge@.take(8)
                &&& call.pow_difficulty@ == order.pow_difficulty@
                &&& call.miner_id@ == order.node_id@
            },
{
    proof {
        groups_reach_from_the_first_to_the_last_nonce(
            order.start_nonce,
            order.end_nonce,
            NONCES_PER_AES,
        );
    }
    let groups = nonce_group_range(order.start_nonce..order.end_nonce, NONCES_PER_AES);
    let challenge: [u8; 8] = [
        order.challenge[0],
        order.challenge[1],
        order.challenge[2],
        order.challenge[3],
        order.challenge[4],
        order.challenge[5],
        order.challenge[6],
        order.challenge[7],
    ];
    assert(challenge@ =~= order.challenge@.take(8));
    let mut calls: Vec<ProverCall> = Vec::new();
    let mut group: u32 = groups.start;
    while group < groups.end
        invariant
            groups.start <= group <= groups.end <= 256,
            groups.start == first_group(order.start_nonce, NONCES_PER_AES),
            challenge@ == order.challenge@.take(8),
            calls@.len() == group - groups.start,
            forall|i: int|
                0 <= i < calls@.len() ==> {
                    let call = #[trigger] calls@[i];
                    &&& call.nonce_group == first_group(order.start_nonce, NONCES_PER_AES) + i
                    &&& call.challenge@ == order.challenge@.take(8)
                    &&& call.pow_difficulty@ == order.pow_difficulty@
                    &&& call.miner_id@ == order.node_id@
                    &&& call.pow_difficulty == order.pow_difficulty
                    &&& call.miner_id == order.node_id
                },
        decreases groups.end - group,
    {
        calls.push(
            ProverCall {
                nonce_group: group as u8,
                challenge,
                pow_difficulty: order.pow_difficulty,
                miner_id: order.node_id,
            },
        );
        group = group + 1;
    }
    calls
}

/// The proofs of work of a task by nonce group, given those that the prover found, in the order
/// of the groups.
pub open spec fn pows_by_group(order: PowRequestView, found: Seq<u64>) -> Map<u32, u64> {
    let first = first_group(order.start_nonce, NONCES_PER_AES);
    Map::new(
        |group: u32| first <= group < first + found.len(),
        |group: u32| found[group - first],
    )
}

/// Collects the proofs of work that the prover found for the nonce groups of a task, in their
/// order.
pub fn calculate_pow(order: &PowRequest, found: &Vec<u64>) -> (pows: HashMap<u32, u64>)
    requires
        can_compute(order@),
        found@.len() == group_count(order@),
    ensures
        pows@ == pows_by_group(order@, found@),
        forall|i: int|
            0 <= i < found@.len() ==> pows@.contains_key((order.start_nonce / 16 + i) as u32)
                && pows@[(order.start_nonce / 16 + i) as u32] == #[trigger] found@[i],
        forall|group: u32| #[trigger]
            pows@.contains_key(group) ==> order.start_nonce / 16 <= group < order.start_nonce / 16
                + found@.len(),
{
    proof {
        each_group_has_its_own_proof_of_work(order@, found@);
    }
    let groups = nonce_group_range(order.start_nonce..order.end_nonce, NONCES_PER_AES);
    let mut pows: HashMap<u32, u64> = HashMap::new();
    let mut i: usize = 0;
    assert(pows@ =~= pows_by_group(order@, found@.take(0)));
    while i < found.len()
        invariant
            i <= found@.len(),
            groups.start == first_group(order.start_nonce, NONCES_PER_AES),
            groups.start + found@.len() <= 256,
            pows@ == pows_by_group(order@, found@.take(i as int)),
        decreases found@.len() - i,
    {
        let ghost shorter = found@.take(i as int);
        let ghost longer = found@.take(i as int + 1);
        let group: u32 = groups.start + i as u32;
        pows.insert(group, found[i]);
        assert(pows@ =~= pows_by_group(order@, longer)) by {
            assert(forall|j: int| 0 <= j < i ==> longer[j] == shorter[j]);
        }
        i = i + 1;
    }
    assert(found@.take(found@.len() as int) =~= found@);
    pows
}

/// Each nonce group of a task has the proof of work that was found for it: with the groups
/// counted from that of the first nonce on, the one that was found at the same place; and there
/// are no others.
pub proof fn each_group_has_its_own_proof_of_work(order: PowRequestView, found: Seq<u64>)
    requires
        can_compute(order),
        found.len() == group_count(order),
    ensures
        forall|i: int|
            0 <= i < found.len() ==> pows_by_group(order, found).contains_key(
                (order.start_nonce / 16 + i) as u32,
            ) && pows_by_group(order, found)[(order.start_nonce / 16 + i) as u32]
                == #[trigger] found[i],
        forall|group: u32| #[trigger]
            pows_by_group(order, found).contains_key(group) <==> order.start_nonce / 16 <= group
                < order.start_nonce / 16 + found.len(),
{
    assert forall|i: int| 0 <= i < found.len() implies pows_by_group(order, found).contains_key(
        (order.start_nonce / 16 + i) as u32,
    ) && pows_by_group(order, found)[(order.start_nonce / 16 + i) as u32] == #[trigger] found[i] by {
        let group = order.start_nonce / 16 + i;
        assert(group as u32 == group);
    }
}

/// Two searches that differ in what was found for one group give proofs of work that differ for
/// that group and agree for all others.
pub proof fn proofs_of_work_do_not_mix(
    order: PowRequestView,
    found: Seq<u64>,
    place: int,
    pow: u64,
)
    requires
        can_compute(order),
        found.len() == group_count(order),
        0 <= place < found.len(),
    ensures
        pows_by_group(order, found.update(place, pow)) == pows_by_group(order, found).insert(
            (order.start_nonce / 16 + place) as u32,
            pow,
        ),
{
    let group = order.start_nonce / 16 + place;
    assert(group as u32 == group);
    assert(pows_by_group(order, found.update(place, pow)) =~= pows_by_group(order, found).insert(
        group as u32,
        pow,
    ));
}

/// Every nonce of a task belongs to a group for which a proof of work is there.
pub proof fn every_nonce_has_a_proof_of_work(order: PowRequestView, found: Seq<u64>, nonce: int)
    requires
        found.len() == group_count(order),
        order.start_nonce <= nonce < order.end_nonce,
    ensures
        pows_by_group(order, found).contains_key((nonce / NONCES_PER_AES as int) as u32),
{
    nonce_belongs_to_a_group(order.start_nonce, order.end_nonce, NONCES_PER_AES, nonce);
    let group = nonce / NONCES_PER_AES as int;
    assert(group as u32 == group);
}

/// Every group for which a proof of work is there holds a nonce of the task, if the task has
/// nonces at all; a task without nonces has the proof of work of one group.
pub proof fn every_proof_of_work_has_a_nonce(order: PowRequestView, found: Seq<u64>, group: u32)
    requires
        found.len() == group_count(order),
        pows_by_group(order, found).contains_key(group),
    ensures
        order.start_nonce < order.end_nonce ==> exists|nonce: int|
            order.start_nonce <= nonce < order.end_nonce && #[trigger] in_group(
                nonce,
                group as int,
                NONCES_PER_AES,
            ),
        order.start_nonce >= order.end_nonce ==> group == first_group(
            order.start_nonce,
            NONCES_PER_AES,
        ),
{
    if order.start_nonce < order.end_nonce {
        group_holds_a_nonce(order.start_nonce, order.end_nonce, NONCES_PER_AES, group as int);
    }
}

/// What a worker does on what comes from the proxy.
#[derive(Debug)]
pub enum ConnectionAction {
    /// The task is to be computed and its response sent.
    Compute(PowRequest),
    /// Nothing more is to be read.
    Stop,
}

/// What a worker does on `message` from the proxy.
pub open spec fn reading(message: Option<PowMessage>) -> ConnectionAction {
    match message {
        Some(PowMessage::Request(request)) => ConnectionAction::Compute(request),
        _ => ConnectionAction::Stop,
    }
}

/// Decides on what came from the proxy; `None` stands for the end of the connection and for what
/// is no message.
pub fn handle_connection(message: Option<PowMessage>) -> (action: ConnectionAction)
    ensures
        action == reading(message),
        message matches Some(PowMessage::Request(request)) ==> action
            == ConnectionAction::Compute(request),
        !(message matches Some(PowMessage::Request(_))) ==> action is Stop,
{
    match message {
        Some(PowMessage::Request(request)) => ConnectionAction::Compute(request),
        _ => ConnectionAction::Stop,
    }
}

/// Every request from the proxy is computed, as it came, and nothing else is; whatever else comes
/// ends the reading.
pub proof fn every_request_is_computed(message: PowMessage, request: PowRequest)
    ensures
        reading(Some(PowMessage::Request(request))) == ConnectionAction::Compute(request),
        reading(Some(message)) is Compute <==> message is Request,
        reading(None) is Stop,
{
}

/// How long a worker waits between heart beats, in seconds.
pub const HEART_BEAT_SECONDS: u64 = 30;

/// The response to the task `id`.
pub fn response_message(id: String, ciphers_pows: HashMap<u32, u64>) -> (message: PowMessage)
    ensures
        message == PowMessage::Response(PowResponse { id, ciphers_pows }),
{
    PowMessage::Response(PowResponse { id, ciphers_pows })
}

/// The heart beat of the worker `name`.
pub fn heart_beat(name: &String) -> (message: PowMessage)
    ensures
        message == PowMessage::Register(Register { name: *name }),
{
    PowMessage::Register(Register { name: name.clone() })
}

/// How long a worker waits, in seconds, before it connects again: ten after a connection that
/// has ended, thirty after one that could not be made.
pub fn reconnect_delay(connected: bool) -> (seconds: u64)
    ensures
        seconds == if connected { 10u64 } else { 30u64 },
{
    if connected {
        10
    } else {
        30
    }
}

} // verus!
