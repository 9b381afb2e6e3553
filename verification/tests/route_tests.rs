use packet_forwarding_service::classification::model::TrafficType;
use packet_forwarding_service::server::classify::{ClassifyResult, ClassifyTask};
use packet_forwarding_service::server::route::{
    consume_result, eq_ignore_ascii_case, forwarding_action, handle_classification,
    mark_for_traffic_type, prune_flows, ClassifyStatus, FlowTable, ForwardingAction,
    IngressCounters, IngressState, RouteMode, DEFAULT_MARK, FLOW_CLASSIFY_BYTES,
};

const SECOND: u64 = 1_000_000_000;

#[test]
fn marks_per_traffic_type() {
    assert_eq!(mark_for_traffic_type(TrafficType::GoogleMeet), 0x801);
    assert_eq!(mark_for_traffic_type(TrafficType::Youtube), 0x801);
    assert_eq!(mark_for_traffic_type(TrafficType::Instagram), 0x802);
    assert_eq!(mark_for_traffic_type(TrafficType::TikTok), 0x802);
    assert_eq!(mark_for_traffic_type(TrafficType::Twitter), 0x803);
}

#[test]
fn route_mode_settings() {
    assert_eq!(RouteMode::from_setting(None), RouteMode::NonBlocking);
    assert_eq!(RouteMode::from_setting(Some(b"none")), RouteMode::Disabled);
    assert_eq!(RouteMode::from_setting(Some(b"NoNe")), RouteMode::Disabled);
    assert_eq!(RouteMode::from_setting(Some(b"BLOCKING")), RouteMode::Blocking);
    assert_eq!(RouteMode::from_setting(Some(b"nonblocking")), RouteMode::NonBlocking);
    assert_eq!(RouteMode::from_setting(Some(b"Non-Blocking")), RouteMode::NonBlocking);
    assert_eq!(RouteMode::from_setting(Some(b"whatever")), RouteMode::NonBlocking);
    assert_eq!(RouteMode::from_setting(Some(b"")), RouteMode::NonBlocking);
    assert_eq!(RouteMode::from_setting(Some(b"nones")), RouteMode::NonBlocking);
}

#[test]
fn ascii_case_insensitive_equality() {
    assert!(eq_ignore_ascii_case(b"Hello-1", b"hELLO-1"));
    assert!(!eq_ignore_ascii_case(b"hello", b"hell"));
    assert!(!eq_ignore_ascii_case(b"[", b"{"));
    assert!(eq_ignore_ascii_case(b"", b""));
}

#[test]
fn forwarding_actions() {
    assert_eq!(
        forwarding_action(&ClassifyStatus::Pinned(0x802), RouteMode::NonBlocking),
        ForwardingAction::Accept { mark: Some(0x802) }
    );
    assert_eq!(
        forwarding_action(&ClassifyStatus::Collecting, RouteMode::NonBlocking),
        ForwardingAction::Accept { mark: None }
    );
    assert_eq!(
        forwarding_action(&ClassifyStatus::Classifying, RouteMode::NonBlocking),
        ForwardingAction::Accept { mark: None }
    );
    assert_eq!(
        forwarding_action(&ClassifyStatus::Pinned(0x803), RouteMode::Disabled),
        ForwardingAction::Accept { mark: None }
    );
    assert_eq!(forwarding_action(&ClassifyStatus::Collecting, RouteMode::Blocking), ForwardingAction::Hold);
    assert_eq!(forwarding_action(&ClassifyStatus::Classifying, RouteMode::Blocking), ForwardingAction::Hold);
    assert_eq!(
        forwarding_action(&ClassifyStatus::Pinned(0x801), RouteMode::Blocking),
        ForwardingAction::Accept { mark: Some(0x801) }
    );
}

#[test]
fn blocking_mode_holds_until_classified() {
    let mut state = IngressState::new(RouteMode::Blocking, 0);
    for i in 0..5u64 {
        let v = state.on_packet(4, &[1], i);
        assert_eq!(v.mark, None);
        assert!(!v.pruned);
    }
    // A result for an unknown flow releases nothing.
    assert_eq!(state.on_result(ClassifyResult { id: 5, classification: Ok(TrafficType::Twitter) }, 6), None);
    // The flow's result releases its held packets with its mark.
    assert_eq!(
        state.on_result(ClassifyResult { id: 4, classification: Ok(TrafficType::TikTok) }, 6),
        Some(0x802)
    );
    let v = state.on_packet(4, &[1], 7);
    assert_eq!(v.mark, Some(0x802));
    state.on_packet(8, &[1], 8);
    assert_eq!(
        state.on_result(ClassifyResult { id: 8, classification: Err("failed".to_string()) }, 9),
        Some(DEFAULT_MARK)
    );
}

#[test]
fn new_flow_starts_collecting() {
    let mut table = FlowTable::new();
    let (status, task) = handle_classification(&mut table, 7, &[1, 2, 3], 10);
    assert_eq!(status, ClassifyStatus::Collecting);
    assert!(task.is_none());
    let flow = table.get(7).unwrap();
    assert_eq!(flow.sample, vec![1, 2, 3]);
    assert_eq!(flow.packets_seen, 1);
    assert_eq!(flow.last_seen, 10);
    assert_eq!(table.len(), 1);
}

#[test]
fn flow_classified_after_five_packets() {
    let mut table = FlowTable::new();
    for i in 0..4u8 {
        let (status, task) = handle_classification(&mut table, 1, &[i], u64::from(i));
        assert_eq!(status, ClassifyStatus::Collecting);
        assert!(task.is_none());
    }
    let (status, task) = handle_classification(&mut table, 1, &[4], 4);
    assert_eq!(status, ClassifyStatus::Classifying);
    let ClassifyTask { id, sample } = task.unwrap();
    assert_eq!(id, 1);
    assert_eq!(sample, vec![0, 1, 2, 3, 4]);
    // A classifying flow sends no second task and collects nothing more.
    let (status, task) = handle_classification(&mut table, 1, &[5], 5);
    assert_eq!(status, ClassifyStatus::Classifying);
    assert!(task.is_none());
    assert_eq!(table.get(1).unwrap().sample, vec![0, 1, 2, 3, 4]);
    assert_eq!(table.get(1).unwrap().last_seen, 5);
}

#[test]
fn empty_packets_do_not_trigger_classification() {
    let mut table = FlowTable::new();
    for i in 0..10u64 {
        let (status, task) = handle_classification(&mut table, 2, &[], i);
        assert_eq!(status, ClassifyStatus::Collecting);
        assert!(task.is_none());
    }
    assert_eq!(table.get(2).unwrap().packets_seen, 10);
    let (status, task) = handle_classification(&mut table, 2, &[42], 11);
    assert_eq!(status, ClassifyStatus::Classifying);
    assert_eq!(task.unwrap().sample, vec![42]);
}

#[test]
fn full_sample_triggers_classification_and_truncates() {
    let mut table = FlowTable::new();
    let big = vec![7u8; 1000];
    let (status, task) = handle_classification(&mut table, 3, &big, 0);
    assert_eq!(status, ClassifyStatus::Classifying);
    let task = task.unwrap();
    assert_eq!(task.sample.len(), FLOW_CLASSIFY_BYTES);
    assert_eq!(table.get(3).unwrap().sample.len(), FLOW_CLASSIFY_BYTES);
}

#[test]
fn sample_accumulates_until_full() {
    let mut table = FlowTable::new();
    let (s1, t1) = handle_classification(&mut table, 4, &vec![1u8; 500], 0);
    assert_eq!((s1, t1.is_none()), (ClassifyStatus::Collecting, true));
    let (s2, t2) = handle_classification(&mut table, 4, &vec![2u8; 500], 1);
    assert_eq!(s2, ClassifyStatus::Classifying);
    let sample = t2.unwrap().sample;
    assert_eq!(sample.len(), 784);
    assert!(sample[..500].iter().all(|&b| b == 1));
    assert!(sample[500..].iter().all(|&b| b == 2));
}

#[test]
fn results_pin_tracked_flows() {
    let mut table = FlowTable::new();
    handle_classification(&mut table, 5, &[1], 0);
    handle_classification(&mut table, 6, &[1], 0);
    consume_result(&mut table, ClassifyResult { id: 5, classification: Ok(TrafficType::Twitter) }, 3);
    consume_result(&mut table, ClassifyResult { id: 6, classification: Err("boom".to_string()) }, 4);
    assert_eq!(table.get(5).unwrap().status, ClassifyStatus::Pinned(0x803));
    assert_eq!(table.get(5).unwrap().last_seen, 3);
    assert_eq!(table.get(6).unwrap().status, ClassifyStatus::Pinned(DEFAULT_MARK));
    // A pinned flow keeps its mark.
    let (status, task) = handle_classification(&mut table, 5, &[9; 900], 10);
    assert_eq!(status, ClassifyStatus::Pinned(0x803));
    assert!(task.is_none());
}

#[test]
fn results_for_unknown_flows_are_dropped() {
    let mut table = FlowTable::new();
    handle_classification(&mut table, 5, &[1], 0);
    consume_result(&mut table, ClassifyResult { id: 99, classification: Ok(TrafficType::TikTok) }, 3);
    assert_eq!(table.len(), 1);
    assert!(table.get(99).is_none());
    assert_eq!(table.get(5).unwrap().status, ClassifyStatus::Collecting);
}

#[test]
fn prune_removes_stale_flows_only() {
    let mut table = FlowTable::new();
    handle_classification(&mut table, 1, &[1], 0);
    handle_classification(&mut table, 2, &[1], 21 * SECOND);
    handle_classification(&mut table, 3, &[1], 45 * SECOND);
    assert_eq!(prune_flows(&mut table, 50 * SECOND), vec![1]);
    assert!(table.get(1).is_none());
    assert!(table.get(2).is_some());
    assert!(table.get(3).is_some());
    prune_flows(&mut table, 51 * SECOND);
    assert!(table.get(2).is_none());
    assert_eq!(table.len(), 1);
    // A clock reading before last_seen counts as no time elapsed.
    assert!(prune_flows(&mut table, 0).is_empty());
    assert_eq!(table.len(), 1);
}

#[test]
fn prune_keeps_flow_at_exact_boundary_minus_one() {
    let mut table = FlowTable::new();
    handle_classification(&mut table, 1, &[1], SECOND);
    prune_flows(&mut table, 31 * SECOND - 1);
    assert_eq!(table.len(), 1);
    prune_flows(&mut table, 31 * SECOND);
    assert_eq!(table.len(), 0);
}

#[test]
fn counters_record_and_reset() {
    let mut c = IngressCounters::new();
    assert!(c.can_record(100));
    c.record(100, false);
    c.record(50, true);
    assert_eq!((c.packet_total, c.byte_total, c.packet_interval, c.byte_interval), (2, 150, 2, 150));
    assert_eq!((c.unoptimised_packet_total, c.unoptimised_byte_total), (1, 50));
    assert_eq!((c.unoptimised_packet_interval, c.unoptimised_byte_interval), (1, 50));
    c.reset_interval();
    assert_eq!((c.packet_total, c.byte_total, c.packet_interval, c.byte_interval), (2, 150, 0, 0));
    assert_eq!((c.unoptimised_packet_interval, c.unoptimised_byte_interval), (0, 0));
    c.byte_total = usize::MAX - 10;
    assert!(!c.can_record(11));
    assert!(c.can_record(10));
}

#[test]
fn ingress_state_marks_and_counts() {
    let mut state = IngressState::new(RouteMode::NonBlocking, 0);
    for i in 0..5u64 {
        let v = state.on_packet(9, &[1, 2], i);
        assert_eq!(v.mark, Some(DEFAULT_MARK));
        if i < 4 {
            assert!(v.task.is_none());
        } else {
            assert_eq!(v.status, ClassifyStatus::Classifying);
            assert_eq!(v.task.unwrap().sample.len(), 10);
        }
    }
    let v = state.on_packet(9, &[1, 2, 3], 6);
    assert_eq!(v.status, ClassifyStatus::Classifying);
    assert_eq!(state.counters.unoptimised_packet_total, 2);
    assert_eq!(state.counters.unoptimised_byte_total, 5);
    assert_eq!(state.on_result(ClassifyResult { id: 9, classification: Ok(TrafficType::Instagram) }, 7), None);
    let v = state.on_packet(9, &[1], 8);
    assert_eq!(v.mark, Some(0x802));
    assert_eq!(v.status, ClassifyStatus::Pinned(0x802));
    assert_eq!(state.counters.packet_total, 7);
    assert_eq!(state.counters.byte_total, 14);
}

#[test]
fn ingress_state_disabled_mode_uses_default_mark() {
    let mut state = IngressState::new(RouteMode::Disabled, 0);
    state.on_packet(1, &[1], 0);
    state.on_result(ClassifyResult { id: 1, classification: Ok(TrafficType::Twitter) }, 1);
    let v = state.on_packet(1, &[1], 2);
    assert_eq!(v.status, ClassifyStatus::Pinned(0x803));
    assert_eq!(v.mark, Some(DEFAULT_MARK));
}

#[test]
fn ingress_state_prunes_when_due() {
    let mut state = IngressState::new(RouteMode::NonBlocking, 0);
    state.on_packet(1, &[1], 0);
    let v = state.on_packet(2, &[1], 31 * SECOND);
    assert!(v.pruned);
    assert!(v.release.is_empty());
    assert_eq!(state.flows.len(), 1);
    assert_eq!(state.last_pruned, 31 * SECOND);
    assert!(state.flows.get(2).is_some());
}

#[test]
fn blocking_mode_releases_pruned_flows_unclassified() {
    let mut state = IngressState::new(RouteMode::Blocking, 0);
    let v = state.on_packet(1, &[1], 0);
    assert_eq!(v.mark, None);
    state.on_packet(2, &[1], 5 * SECOND);
    let v = state.on_packet(3, &[1], 31 * SECOND);
    assert!(v.pruned);
    assert_eq!(v.release, vec![(1, DEFAULT_MARK)]);
    assert!(state.flows.get(1).is_none());
    assert!(state.flows.get(2).is_some());
    let v = state.on_packet(3, &[1], 32 * SECOND);
    assert!(!v.pruned);
    assert!(v.release.is_empty());
}

#[test]
fn ingress_state_pushes_metrics_each_interval() {
    let mut state = IngressState::new(RouteMode::NonBlocking, 0);
    state.on_packet(1, &[0; 10], 10);
    assert!(state.poll_metrics(SECOND, 123, 4).is_none());
    let m = state.poll_metrics(SECOND + 1, 123, 4).unwrap();
    assert_eq!(m.timestamp_unix_ns, 123);
    assert_eq!(m.interval_ns, SECOND + 1);
    assert_eq!(m.flow_count, 1);
    assert_eq!(m.classify_backpressure, 4);
    assert_eq!((m.packet_total, m.byte_total, m.packet_interval, m.byte_interval), (1, 10, 1, 10));
    assert_eq!(state.counters.packet_interval, 0);
    assert_eq!(state.counters.packet_total, 1);
    assert_eq!(state.last_metric_push, SECOND + 1);
    assert!(state.poll_metrics(SECOND + 2, 0, 0).is_none());
}

#[test]
fn pushed_totals_add_up_over_intervals() {
    let mut state = IngressState::new(RouteMode::NonBlocking, 0);
    let mut previous_total = 0usize;
    let mut previous_bytes = 0usize;
    let mut sent = 0usize;
    let mut bytes = 0usize;
    let mut now = 0u64;
    for round in 0..4u64 {
        for k in 0..(3 + round) {
            let len = (k as usize) * 10 + 1;
            state.on_packet((k % 2) as u32, &vec![0u8; len], now);
            sent += 1;
            bytes += len;
            now += 100_000_000;
        }
        now += SECOND;
        let m = state.poll_metrics(now, 0, 0).unwrap();
        assert_eq!(m.packet_total, sent);
        assert_eq!(m.byte_total, bytes);
        assert_eq!(m.packet_total, previous_total + m.packet_interval);
        assert_eq!(m.byte_total, previous_bytes + m.byte_interval);
        assert!(m.unoptimised_packet_total <= m.packet_total);
        previous_total = m.packet_total;
        previous_bytes = m.byte_total;
    }
}

#[test]
fn pruned_flow_starts_over() {
    let mut table = FlowTable::new();
    handle_classification(&mut table, 1, &[1; 10], 0);
    consume_result(&mut table, ClassifyResult { id: 1, classification: Ok(TrafficType::Twitter) }, 0);
    prune_flows(&mut table, 40 * SECOND);
    consume_result(&mut table, ClassifyResult { id: 1, classification: Ok(TrafficType::Twitter) }, 40 * SECOND);
    assert!(table.get(1).is_none());
    let (status, _) = handle_classification(&mut table, 1, &[7, 8], 41 * SECOND);
    assert_eq!(status, ClassifyStatus::Collecting);
    let flow = table.get(1).unwrap();
    assert_eq!((flow.packets_seen, flow.sample.clone()), (1, vec![7, 8]));
}
