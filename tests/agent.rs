use str0m::{
    pair_priority, Candidate, CandidateKind, CandidatePairState, CheckOutcome, IceAgent,
    IceConnectionState, IceError, TransportAddr, PASSWORD_LEN, USERNAME_LEN,
};

fn ipv4_1() -> TransportAddr {
    TransportAddr::ipv4(1, 2, 3, 4, 5000)
}
fn ipv4_2() -> TransportAddr {
    TransportAddr::ipv4(2, 3, 4, 5, 5000)
}
fn ipv6_1() -> TransportAddr {
    TransportAddr::ipv6(0x1001 << 112, 5000)
}
fn ipv6_2() -> TransportAddr {
    TransportAddr::ipv6(0x1002 << 112, 5000)
}

fn remote_host(addr: TransportAddr, prio: u32) -> Candidate {
    Candidate::remote(CandidateKind::Host, addr, prio).unwrap()
}

#[test]
fn local_preference_host() {
    let mut agent = IceAgent::new();

    agent.add_local_candidate(Candidate::host(ipv4_1()).unwrap());
    agent.add_local_candidate(Candidate::host(ipv6_1()).unwrap());
    agent.add_local_candidate(Candidate::host(ipv6_2()).unwrap());
    agent.add_local_candidate(Candidate::host(ipv4_2()).unwrap());

    let v: Vec<_> = agent
        .local_candidates()
        .iter()
        .map(|c| c.local_preference())
        .collect();

    assert_eq!(v, vec![65534, 65535, 65533, 65532]);
}

#[test]
fn discard_adding_redundant() {
    let mut agent = IceAgent::new();

    let x2 = agent.add_local_candidate(Candidate::host(ipv4_1()).unwrap());
    assert!(x2);

    let x1 = agent.add_local_candidate(Candidate::peer_reflexive(ipv4_1(), ipv4_1()));
    assert!(x1 == false);
}

#[test]
fn discard_already_added_redundant() {
    let mut agent = IceAgent::new();

    let x1 = agent.add_local_candidate(Candidate::peer_reflexive(ipv4_1(), ipv4_1()));
    assert!(x1);

    let x2 = agent.add_local_candidate(Candidate::host(ipv4_1()).unwrap());
    assert!(x2);

    let v: Vec<_> = agent
        .local_candidates()
        .iter()
        .map(|v| v.discarded())
        .collect();

    assert_eq!(v, vec![true, false]);
}

#[test]
fn redundant_reflexive_leaves_store_unchanged() {
    let mut agent = IceAgent::new();
    assert!(agent.add_local_candidate(Candidate::host(ipv4_1()).unwrap()));
    assert!(!agent.add_local_candidate(Candidate::server_reflexive(ipv4_1(), ipv4_1())));
    assert_eq!(agent.local_candidates().len(), 1);
    assert!(!agent.local_candidates()[0].discarded());
}

#[test]
fn equal_priority_is_redundant() {
    // Remote candidates carry the priority the peer gave them, so two of
    // equal priority at one endpoint can be offered.
    let mut b = IceAgent::new();
    b.add_remote_candidate(remote_host(ipv4_1(), 1000));
    b.add_remote_candidate(remote_host(ipv4_1(), 1000));
    assert_eq!(b.remote_candidates().len(), 1);
    b.add_remote_candidate(remote_host(ipv4_1(), 2000));
    let v: Vec<_> = b.remote_candidates().iter().map(|c| c.discarded()).collect();
    assert_eq!(v, vec![true, false]);
}

#[test]
fn local_preference_bands() {
    let mut agent = IceAgent::new();
    assert!(agent.add_local_candidate(Candidate::relayed(ipv4_1(), ipv4_2())));
    assert!(agent.add_local_candidate(Candidate::server_reflexive(ipv6_1(), ipv6_2())));
    let v: Vec<_> = agent.local_candidates().iter().map(|c| c.local_preference()).collect();
    assert_eq!(v, vec![16382, 32767]);
    // Host, type preference 126: (126 << 24) + (65534 << 8) + 255.
    let mut h = IceAgent::new();
    h.add_local_candidate(Candidate::host(ipv4_1()).unwrap());
    assert_eq!(h.local_candidates()[0].prio(), (126u32 << 24) + (65534u32 << 8) + 255);
}

#[test]
fn ice_lite_takes_host_only() {
    let mut agent = IceAgent::new();
    agent.set_ice_lite(true);
    assert!(!agent.add_local_candidate(Candidate::server_reflexive(ipv4_1(), ipv4_2())));
    assert!(agent.add_local_candidate(Candidate::host(ipv4_1()).unwrap()));
}

#[test]
fn host_rejects_unusable_addresses() {
    let loopback = TransportAddr::ipv4(127, 0, 0, 1, 5000);
    assert!(matches!(Candidate::host(loopback), Err(IceError::BadCandidate(_))));
    let multicast = TransportAddr::ipv4(224, 0, 0, 1, 5000);
    assert!(Candidate::host(multicast).is_err());
    assert!(Candidate::host(TransportAddr::ipv6(1, 5000)).is_err());
    assert!(Candidate::host(ipv6_1()).is_ok());
}

#[test]
fn remote_rejects_bad_priority() {
    assert!(Candidate::remote(CandidateKind::Host, ipv4_1(), 0).is_err());
    assert!(Candidate::remote(CandidateKind::Host, ipv4_1(), 0x8000_0000).is_err());
    assert!(Candidate::remote(CandidateKind::Host, ipv4_1(), 0x7FFF_FFFF).is_ok());
}

#[test]
fn invalidate_twice() {
    let mut agent = IceAgent::new();
    let c = Candidate::host(ipv4_1()).unwrap();
    agent.add_local_candidate(c);
    assert!(agent.invalidate_candidate(&c));
    assert!(!agent.invalidate_candidate(&c));
    assert!(agent.local_candidates()[0].discarded());
}

#[test]
fn invalidate_missing_is_noop() {
    let mut agent = IceAgent::new();
    agent.add_local_candidate(Candidate::host(ipv4_1()).unwrap());
    agent.add_remote_candidate(remote_host(ipv4_2(), 100));
    let before = agent.candidate_pairs().clone();
    let other = Candidate::host(ipv6_1()).unwrap();
    assert!(!agent.invalidate_candidate(&other));
    assert_eq!(agent.candidate_pairs(), &before);
    assert!(!agent.local_candidates()[0].discarded());
}

#[test]
fn pair_priority_formula() {
    assert_eq!(pair_priority(10, 10), (10u64 << 32) + 20);
    assert_eq!(pair_priority(20, 10), (10u64 << 32) + 40 + 1);
    assert_eq!(pair_priority(10, 20), (10u64 << 32) + 40);
    assert_eq!(pair_priority(u32::MAX, u32::MAX - 1), u64::MAX);
}

#[test]
fn pair_priority_role_swap_low_bit() {
    let a = pair_priority(10, 10);
    let b = pair_priority(10, 10);
    assert_eq!(a >> 1, b >> 1);
    let c = pair_priority(7, 9);
    let d = pair_priority(9, 7);
    assert_eq!(c >> 1, d >> 1);
    assert_eq!(c ^ d, 1);
}

#[test]
fn pairs_form_by_family_and_sorted() {
    let mut agent = IceAgent::new();
    agent.add_local_candidate(Candidate::host(ipv4_1()).unwrap());
    agent.add_local_candidate(Candidate::host(ipv6_1()).unwrap());
    agent.add_remote_candidate(remote_host(ipv4_2(), 100));
    agent.add_remote_candidate(remote_host(ipv6_2(), 200));
    agent.add_remote_candidate(remote_host(TransportAddr::ipv4(3, 4, 5, 6, 7000), 300));
    let pairs = agent.candidate_pairs();
    assert_eq!(pairs.len(), 3);
    for p in pairs.iter() {
        let l = agent.local_candidates()[p.local_idx()].addr();
        let r = agent.remote_candidates()[p.remote_idx()].addr();
        assert_eq!(l.is_ipv6(), r.is_ipv6());
        assert_eq!(p.state(), CandidatePairState::Waiting);
    }
    for w in pairs.windows(2) {
        assert!(w[0].prio() >= w[1].prio());
    }
    // Controlled: the remote priority is the controlling one.
    let top = &pairs[0];
    assert_eq!(top.remote_idx(), 2);
    assert_eq!(top.prio(), pair_priority(300, agent.local_candidates()[0].prio()));
    assert_eq!(agent.state(), IceConnectionState::Checking);
}

#[test]
fn discard_removes_exactly_its_pairs() {
    let mut agent = IceAgent::new();
    let a = Candidate::host(ipv4_1()).unwrap();
    let b = Candidate::host(ipv4_2()).unwrap();
    agent.add_local_candidate(a);
    agent.add_local_candidate(b);
    agent.add_remote_candidate(remote_host(TransportAddr::ipv4(5, 5, 5, 5, 1), 100));
    agent.add_remote_candidate(remote_host(TransportAddr::ipv4(6, 6, 6, 6, 1), 100));
    assert_eq!(agent.candidate_pairs().len(), 4);
    assert!(agent.invalidate_candidate(&a));
    assert_eq!(agent.candidate_pairs().len(), 2);
    assert!(agent.candidate_pairs().iter().all(|p| p.local_idx() == 1));
}

#[test]
fn frozen_when_foundation_is_checked() {
    let mut agent = IceAgent::new();
    let base = ipv4_1();
    agent.add_local_candidate(Candidate::server_reflexive(TransportAddr::ipv4(9, 9, 9, 9, 1), base));
    agent.add_remote_candidate(remote_host(ipv4_2(), 100));
    // A second local candidate of the same kind and base: same foundation.
    agent.add_local_candidate(Candidate::server_reflexive(TransportAddr::ipv4(9, 9, 9, 8, 1), base));
    let states: Vec<_> = agent.candidate_pairs().iter().map(|p| p.state()).collect();
    assert!(states.contains(&CandidatePairState::Frozen));
    assert!(states.contains(&CandidatePairState::Waiting));
}

#[test]
fn checks_run_to_completed() {
    let mut agent = IceAgent::new();
    agent.set_controlling(true);
    agent.add_local_candidate(Candidate::host(ipv4_1()).unwrap());
    agent.add_remote_candidate(remote_host(ipv4_2(), 100));
    agent.add_remote_candidate(remote_host(TransportAddr::ipv4(3, 3, 3, 3, 1), 50));
    let first = agent.poll_check().unwrap();
    assert_eq!(first, (0, 0));
    assert!(agent.handle_check_result(0, 0, CheckOutcome::Success, false));
    assert!(agent.candidate_pairs()[0].nominated());
    assert_eq!(agent.state(), IceConnectionState::Connected);
    // The lower-priority pair is no longer checked.
    assert_eq!(agent.candidate_pairs()[1].state(), CandidatePairState::Failed);
    assert_eq!(agent.poll_check(), None);
    agent.set_gathering_complete();
    assert_eq!(agent.state(), IceConnectionState::Completed);
    // A late response is a no-op.
    assert!(!agent.handle_check_result(0, 0, CheckOutcome::Failure, false));
    assert_eq!(agent.state(), IceConnectionState::Completed);
    agent.consent_result(false);
    assert_eq!(agent.state(), IceConnectionState::Disconnected);
    agent.consent_result(true);
    assert_eq!(agent.state(), IceConnectionState::Connected);
    agent.close();
    assert_eq!(agent.state(), IceConnectionState::Closed);
    assert!(!agent.add_local_candidate(Candidate::host(ipv6_1()).unwrap()));
}

#[test]
fn all_failed_is_terminal() {
    let mut agent = IceAgent::new();
    agent.add_local_candidate(Candidate::host(ipv4_1()).unwrap());
    agent.add_remote_candidate(remote_host(ipv4_2(), 100));
    agent.set_gathering_complete();
    let k = agent.poll_check().unwrap();
    assert!(agent.handle_check_result(k.0, k.1, CheckOutcome::Failure, false));
    assert_eq!(agent.state(), IceConnectionState::Failed);
    agent.add_remote_candidate(remote_host(TransportAddr::ipv4(3, 3, 3, 3, 1), 50));
    assert_eq!(agent.state(), IceConnectionState::Failed);
    agent.close();
    assert_eq!(agent.state(), IceConnectionState::Closed);
}

#[test]
fn recoverable_errors_retry_then_fail() {
    let mut agent = IceAgent::new();
    agent.add_local_candidate(Candidate::host(ipv4_1()).unwrap());
    agent.add_remote_candidate(remote_host(ipv4_2(), 100));
    for _ in 0..2 {
        let k = agent.poll_check().unwrap();
        assert!(agent.handle_check_result(k.0, k.1, CheckOutcome::Recoverable, false));
        assert_eq!(agent.candidate_pairs()[0].state(), CandidatePairState::Waiting);
    }
    let k = agent.poll_check().unwrap();
    assert!(agent.handle_check_result(k.0, k.1, CheckOutcome::Recoverable, false));
    assert_eq!(agent.candidate_pairs()[0].state(), CandidatePairState::Failed);
}

#[test]
fn controlled_success_waits_for_nomination() {
    let mut agent = IceAgent::new();
    agent.add_local_candidate(Candidate::host(ipv4_1()).unwrap());
    agent.add_remote_candidate(remote_host(ipv4_2(), 100));
    let k = agent.poll_check().unwrap();
    assert!(agent.handle_check_result(k.0, k.1, CheckOutcome::Success, false));
    assert!(!agent.candidate_pairs()[0].nominated());
    assert_eq!(agent.state(), IceConnectionState::Checking);
}

#[test]
fn credentials_and_timing_advance() {
    let mut agent = IceAgent::new();
    assert_eq!(agent.username().len(), USERNAME_LEN);
    assert_eq!(agent.password().len(), PASSWORD_LEN);
    assert!(agent.password().chars().all(|c| c.is_ascii_alphanumeric()));
    assert!(!agent.controlling());
    assert_eq!(agent.timing_advance(), 50);
    agent.propose_timing_advance(20);
    assert_eq!(agent.timing_advance(), 50);
    agent.propose_timing_advance(80);
    assert_eq!(agent.timing_advance(), 80);
    assert_eq!(agent.state(), IceConnectionState::New);
}

#[test]
fn poll_timeout_follows_timing_advance() {
    let mut agent = IceAgent::new();
    assert_eq!(agent.poll_timeout(1000), Some(1050));
    assert_eq!(agent.poll_timeout(u64::MAX - 10), Some(u64::MAX));
    agent.close();
    assert_eq!(agent.poll_timeout(1000), None);
}
