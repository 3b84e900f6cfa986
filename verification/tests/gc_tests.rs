use peercode::gc::{
    apply_event, compute_min_sv, has_compactable_deletes, merge_into, plan_gc_commit, ClientId,
    DeleteSet, GcEvent, PeerStates, StateVector,
};
use peercode::sv_report::{SvReporter, HEARTBEAT_TICKS};

fn sv(entries: &[(u64, u64)]) -> StateVector {
    StateVector::from_entries(entries.iter().map(|&(c, n)| (c as ClientId, n)).collect())
}

fn ds(entries: &[(u64, u64, u64)]) -> DeleteSet {
    let mut d = DeleteSet::new();
    for &(c, start, len) in entries {
        d.add(c, start, len);
    }
    d
}

fn peers_of(entries: Vec<(ClientId, StateVector)>) -> PeerStates {
    let mut peers = PeerStates::new();
    for (c, s) in entries {
        peers.insert(c, s);
    }
    peers
}

#[test]
fn compactable_deletes_exist_when_range_starts_below_floor() {
    assert!(has_compactable_deletes(&ds(&[(1, 0, 10)]), &sv(&[(1, 6)])));
}

#[test]
fn compactable_deletes_do_not_exist_when_floor_is_zero() {
    assert!(!has_compactable_deletes(&ds(&[(1, 0, 5)]), &sv(&[])));
}

#[test]
fn compactable_deletes_do_not_exist_when_range_starts_at_floor() {
    assert!(!has_compactable_deletes(&ds(&[(1, 6, 3)]), &sv(&[(1, 6)])));
}

#[test]
fn min_sv_takes_per_client_minimum_treating_absent_as_zero() {
    let peer_svs = peers_of(vec![(7, sv(&[(1, 5), (2, 9)])), (8, sv(&[(1, 8)]))]);
    let own = sv(&[(1, 10), (2, 9)]);
    let min = compute_min_sv(&peer_svs, &own);
    assert_eq!(min.get(1), 5);
    assert_eq!(min.get(2), 0);
}

#[test]
fn stale_report_after_left_does_not_resurrect_peer() {
    let peer: ClientId = 7;
    let mut peers = PeerStates::new();
    apply_event(&mut peers, GcEvent::Joined(peer));
    apply_event(&mut peers, GcEvent::PeerSvReport { client: peer, sv: sv(&[(1, 5)]) });
    apply_event(&mut peers, GcEvent::Left(peer));
    apply_event(&mut peers, GcEvent::PeerSvReport { client: peer, sv: sv(&[(1, 5)]) });
    assert!(peers.is_empty(), "a report delivered after `left` must not re-add the peer");
}

#[test]
fn reports_merge_per_client_max_into_joined_entry() {
    let peer: ClientId = 7;
    let mut peers = PeerStates::new();
    apply_event(&mut peers, GcEvent::Joined(peer));
    apply_event(&mut peers, GcEvent::PeerSvReport { client: peer, sv: sv(&[(1, 5)]) });
    apply_event(&mut peers, GcEvent::PeerSvReport { client: peer, sv: sv(&[(1, 3), (2, 4)]) });
    let entry = peers.get(peer).unwrap();
    assert_eq!(entry.get(1), 5);
    assert_eq!(entry.get(2), 4);
}

#[test]
fn min_sv_equals_own_when_no_peers() {
    let own = sv(&[(1, 4), (2, 7)]);
    let min = compute_min_sv(&PeerStates::new(), &own);
    assert_eq!(min.get(1), 4);
    assert_eq!(min.get(2), 7);
}

#[test]
fn document_replaced_clears_reported_svs_but_keeps_membership() {
    let mut peers = PeerStates::new();
    let peer: ClientId = 7;

    apply_event(&mut peers, GcEvent::Joined(peer));
    let mut sv = StateVector::new();
    sv.update(1, 42);
    apply_event(&mut peers, GcEvent::PeerSvReport { client: peer, sv });

    apply_event(&mut peers, GcEvent::DocumentReplaced);

    assert!(peers.contains_key(peer));

    assert_eq!(peers.get(peer).unwrap().get(1), 0);
}

#[test]
fn report_of_unknown_peer_is_ignored() {
    let mut peers = PeerStates::new();
    apply_event(&mut peers, GcEvent::PeerSvReport { client: 9, sv: sv(&[(1, 5)]) });
    assert!(peers.is_empty());
    assert!(!peers.contains_key(9));
}

#[test]
fn joining_twice_keeps_the_reported_clocks() {
    let mut peers = PeerStates::new();
    apply_event(&mut peers, GcEvent::Joined(3));
    apply_event(&mut peers, GcEvent::PeerSvReport { client: 3, sv: sv(&[(1, 11)]) });
    apply_event(&mut peers, GcEvent::Joined(3));
    assert_eq!(peers.len(), 1);
    assert_eq!(peers.get(3).unwrap().get(1), 11);
}

#[test]
fn update_keeps_the_larger_clock() {
    let mut s = StateVector::new();
    s.update(4, 10);
    s.update(4, 3);
    assert_eq!(s.get(4), 10);
    s.update(4, 12);
    assert_eq!(s.get(4), 12);
    assert_eq!(s.get(5), 0);
}

#[test]
fn from_entries_keeps_the_larger_clock_of_a_repeated_client() {
    let s = sv(&[(1, 3), (1, 8), (1, 2)]);
    assert_eq!(s.get(1), 8);
    assert_eq!(s.entries(), vec![(1, 8)]);
}

#[test]
fn merge_takes_the_per_client_maximum() {
    let mut a = sv(&[(1, 5), (2, 1)]);
    merge_into(&mut a, &sv(&[(1, 2), (3, 9)]));
    assert_eq!(a.get(1), 5);
    assert_eq!(a.get(2), 1);
    assert_eq!(a.get(3), 9);
}

#[test]
fn floor_is_below_every_participant() {
    let peer_svs = peers_of(vec![(7, sv(&[(1, 6), (2, 3)])), (8, sv(&[(1, 9), (2, 5)]))]);
    let own = sv(&[(1, 7), (2, 4)]);
    let min = compute_min_sv(&peer_svs, &own);
    assert_eq!(min.get(1), 6);
    assert_eq!(min.get(2), 3);
    assert!(min.get(1) <= own.get(1));
    assert!(min.get(2) <= peer_svs.get(7).unwrap().get(2));
}

#[test]
fn gc_commit_is_planned_only_when_something_is_compactable() {
    let peer_svs = peers_of(vec![(7, sv(&[(1, 6)]))]);
    let own = sv(&[(1, 10)]);
    let planned = plan_gc_commit(&peer_svs, &own, &ds(&[(1, 2, 3)]));
    assert_eq!(planned.unwrap().get(1), 6);
    assert!(plan_gc_commit(&peer_svs, &own, &ds(&[(1, 6, 3)])).is_none());
    assert!(plan_gc_commit(&peer_svs, &own, &DeleteSet::new()).is_none());
}

#[test]
fn reporter_reports_first_poll_and_changes_only() {
    let mut r = SvReporter::new();
    let first = r.on_poll(sv(&[(1, 2)]));
    assert_eq!(first, Some(vec![(1, 2)]));
    assert_eq!(r.on_poll(sv(&[(1, 2)])), None);
    assert_eq!(r.on_poll(sv(&[(1, 3)])), Some(vec![(1, 3)]));
}

#[test]
fn reporter_sends_a_heartbeat_after_idle_polls() {
    let mut r = SvReporter::new();
    assert!(r.on_poll(sv(&[(1, 2)])).is_some());
    for _ in 1..HEARTBEAT_TICKS {
        assert!(r.on_poll(sv(&[(1, 2)])).is_none());
    }
    assert_eq!(r.on_poll(sv(&[(1, 2)])), Some(vec![(1, 2)]));
    assert!(r.on_poll(sv(&[(1, 2)])).is_none());
}
