use pow_service::proving::{
    block_at, generate_proof_remotely, num_labels, IndexCollector, ProofEvent, ProofSearch,
    ProofStep,
};

fn through_scan(search: ProofSearch) -> ProofSearch {
    let mut search = search.advance(ProofEvent::StopFlag(false));
    while !matches!(search.step, ProofStep::Scan) {
        search = search.advance(ProofEvent::Done);
    }
    search
}

#[test]
fn exclusive_search_locks_before_the_proofs_of_work() {
    let search = generate_proof_remotely(288, 1);
    assert_eq!(search.nonces, 0..288);
    assert!(matches!(search.step, ProofStep::CheckStop));
    let search = search.advance(ProofEvent::StopFlag(false));
    assert!(matches!(search.step, ProofStep::Announce));
    let search = search.advance(ProofEvent::Done);
    assert!(matches!(search.step, ProofStep::Lock));
    assert!(!search.locked);
    let search = search.advance(ProofEvent::Done);
    assert!(matches!(search.step, ProofStep::FetchPow));
    assert!(search.locked);
    let search = search.advance(ProofEvent::Done);
    assert!(matches!(search.step, ProofStep::Scan));
    assert!(search.locked);
}

#[test]
fn other_searches_lock_after_the_proofs_of_work() {
    for priority in [0, 2, 100] {
        let search = generate_proof_remotely(288, priority);
        let search = search.advance(ProofEvent::StopFlag(false));
        let search = search.advance(ProofEvent::Done);
        assert!(matches!(search.step, ProofStep::FetchPow));
        assert!(!search.locked);
        let search = search.advance(ProofEvent::Done);
        assert!(matches!(search.step, ProofStep::Lock));
        let search = search.advance(ProofEvent::Done);
        assert!(matches!(search.step, ProofStep::Scan));
        assert!(search.locked);
    }
}

#[test]
fn groups_of_nonces_follow_one_another() {
    let mut search = generate_proof_remotely(288, 1);
    for k in 0..4u32 {
        assert_eq!(search.nonces, k * 288..(k + 1) * 288);
        search = through_scan(search);
        search = search.advance(ProofEvent::Scanned(None));
        assert!(search.locked);
        search = search.advance(ProofEvent::Done);
        assert!(!search.locked);
        assert!(matches!(search.step, ProofStep::CheckStop));
    }
}

#[test]
fn proof_that_was_found_ends_the_search() {
    let search = through_scan(generate_proof_remotely(288, 2));
    let search = search.advance(ProofEvent::Scanned(Some((5, vec![1, 2, 3]))));
    let search = search.advance(ProofEvent::Done);
    assert!(!search.locked);
    match search.step {
        ProofStep::Found(nonce, indices) => {
            assert_eq!(nonce, 5);
            assert_eq!(indices, vec![1, 2, 3]);
        }
        _ => panic!("the proof is there"),
    }
}

#[test]
fn search_can_be_stopped_before_a_group() {
    let search = generate_proof_remotely(288, 2).advance(ProofEvent::StopFlag(true));
    assert!(matches!(search.step, ProofStep::Stopped));
    assert!(!search.accepts(&ProofEvent::Done));
}

#[test]
fn failed_scan_releases_the_lock() {
    for priority in [1, 2] {
        let search = through_scan(generate_proof_remotely(288, priority));
        assert!(search.accepts(&ProofEvent::Failed));
        let search = search.advance(ProofEvent::Failed);
        assert!(matches!(search.step, ProofStep::Release));
        assert!(search.locked);
        assert!(!search.accepts(&ProofEvent::Failed));
        let search = search.advance(ProofEvent::Done);
        assert!(matches!(search.step, ProofStep::Failed));
        assert!(!search.locked);
        assert_eq!(search.nonces, 0..288);
        assert!(!search.accepts(&ProofEvent::Done));
    }
}

#[test]
fn failed_request_releases_the_lock_where_it_is_held() {
    for priority in [0, 1, 2] {
        let mut search = generate_proof_remotely(288, priority).advance(ProofEvent::StopFlag(false));
        while !matches!(search.step, ProofStep::FetchPow) {
            assert!(!search.accepts(&ProofEvent::Failed));
            search = search.advance(ProofEvent::Done);
        }
        let mut search = search.advance(ProofEvent::Failed);
        if priority == 1 {
            assert!(matches!(search.step, ProofStep::Release));
            assert!(search.locked);
            search = search.advance(ProofEvent::Done);
        }
        assert!(matches!(search.step, ProofStep::Failed));
        assert!(!search.locked);
    }
}

#[test]
fn last_group_has_no_next() {
    let search = through_scan(generate_proof_remotely(u32::MAX as usize, 1));
    let search = search.advance(ProofEvent::Scanned(None));
    assert!(!search.accepts(&ProofEvent::Done));
    let search = through_scan(generate_proof_remotely(0x7fff_ffff, 1));
    let search = search.advance(ProofEvent::Scanned(None));
    assert!(search.accepts(&ProofEvent::Done));
    assert!(!search.accepts(&ProofEvent::StopFlag(true)));
}

#[test]
fn group_size_counts_modulo_the_nonces() {
    if usize::BITS == 64 {
        assert_eq!(generate_proof_remotely((u32::MAX as usize) + 17, 1).nonces, 0..16);
    }
}

#[test]
fn indices_are_given_out_in_portions() {
    let mut collector = IndexCollector::new();
    assert_eq!(collector.collect(1, 10, 3), None);
    assert_eq!(collector.collect(2, 20, 3), None);
    assert_eq!(collector.collect(1, 11, 3), None);
    assert_eq!(collector.collect(1, 12, 3), Some(vec![10, 11, 12]));
    assert_eq!(collector.collect(1, 13, 3), None);
    assert_eq!(collector.collect(2, 21, 3), None);
    assert_eq!(collector.collect(2, 22, 3), Some(vec![20, 21, 22]));
}

#[test]
fn small_proofs_take_every_index() {
    let mut collector = IndexCollector::new();
    assert_eq!(collector.collect(1, 10, 1), Some(vec![10]));
    assert_eq!(collector.collect(1, 11, 0), Some(vec![11]));
    assert_eq!(collector.collect(1, 12, 2), None);
}

#[test]
fn positions_and_sizes() {
    assert_eq!(block_at(0), 0);
    assert_eq!(block_at(15), 0);
    assert_eq!(block_at(1024 * 1024), 65536);
    assert_eq!(num_labels(4, 4294967296), 17179869184);
    assert_eq!(num_labels(0, u64::MAX), 0);
}
