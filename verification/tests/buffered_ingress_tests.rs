use packet_forwarding_service::classification::model::TrafficType;
use packet_forwarding_service::server::ingress::{
    consume_result, handle_classification, mark_for_traffic_type, prune_flows, throughput_lines, FlowTable,
    IngressState, ThroughputFigures, ThroughputReport, DEFAULT_MARK, PACKETS_FOR_CLASSIFY,
};
use packet_forwarding_service::server::route::ClassifyStatus;
use packet_forwarding_service::server::ClassifyResult;

const SECOND: u64 = 1_000_000_000;

/// The throughput figures as the ingress loop computes them, with floating point.
fn figures(r: &ThroughputReport) -> ThroughputFigures {
    let secs = std::time::Duration::from_nanos(r.elapsed_ns).as_secs_f64();
    ThroughputFigures {
        gigabit_total: format!("{:.2}", (r.byte_count as f64 * 8.0) / 1_000_000_000.0),
        packet_rate: format!("{:.2}", r.packet_interval as f64 / secs),
        megabit_rate: format!("{:.2}", (r.byte_interval as f64 / secs) * 8.0 / 1_000_000.0),
        missed_percent: format!("{:.2}", r.missed_interval as f64 / r.packet_interval as f64 * 100.0),
        missed_rate: format!("{:.2}", r.missed_interval as f64 / secs),
    }
}

#[test]
fn buffered_marks() {
    assert_eq!(mark_for_traffic_type(TrafficType::GoogleMeet), 0x801);
    assert_eq!(mark_for_traffic_type(TrafficType::Instagram), 0x802);
    assert_eq!(mark_for_traffic_type(TrafficType::TikTok), 0x803);
    assert_eq!(mark_for_traffic_type(TrafficType::Twitter), 0x804);
    assert_eq!(mark_for_traffic_type(TrafficType::Youtube), 0x802);
}

#[test]
fn buffered_flow_sends_first_packets_in_order() {
    let mut table = FlowTable::new();
    for i in 0..(PACKETS_FOR_CLASSIFY as u8 - 1) {
        let (status, task) = handle_classification(&mut table, 1, vec![i, i], 0);
        assert_eq!(status, ClassifyStatus::Collecting);
        assert!(task.is_none());
    }
    let (status, task) = handle_classification(&mut table, 1, vec![4], 0);
    assert_eq!(status, ClassifyStatus::Classifying);
    let task = task.unwrap();
    assert_eq!(task.id, 1);
    assert_eq!(task.buf, vec![vec![0, 0], vec![1, 1], vec![2, 2], vec![3, 3], vec![4]]);
    let (status, task) = handle_classification(&mut table, 1, vec![5], 1);
    assert_eq!(status, ClassifyStatus::Classifying);
    assert!(task.is_none());
    assert_eq!(table.get(1).unwrap().buf.len(), 5);
}

#[test]
fn buffered_results_and_prune() {
    let mut table = FlowTable::new();
    handle_classification(&mut table, 1, vec![1], 0);
    handle_classification(&mut table, 2, vec![1], 0);
    consume_result(&mut table, ClassifyResult { id: 1, classification: Ok(TrafficType::Twitter) }, 20 * SECOND);
    consume_result(&mut table, ClassifyResult { id: 3, classification: Ok(TrafficType::Twitter) }, 20 * SECOND);
    assert_eq!(table.get(1).unwrap().status, ClassifyStatus::Pinned(0x804));
    assert!(table.get(3).is_none());
    consume_result(&mut table, ClassifyResult { id: 2, classification: Err("x".to_string()) }, 0);
    assert_eq!(table.get(2).unwrap().status, ClassifyStatus::Pinned(DEFAULT_MARK));
    prune_flows(&mut table, 35 * SECOND);
    assert!(table.get(1).is_some());
    assert!(table.get(2).is_none());
}

#[test]
fn buffered_ingress_state_loop() {
    let mut state = IngressState::new(0);
    let v = state.on_packet(3, vec![1, 2, 3], 0);
    assert_eq!(v.status, ClassifyStatus::Collecting);
    assert_eq!(v.mark, None);
    for _ in 0..3 {
        state.on_packet(3, vec![1], 1);
    }
    let v = state.on_packet(3, vec![1, 1], 2);
    assert_eq!(v.status, ClassifyStatus::Classifying);
    assert_eq!(state.inefficient_count, 1);
    state.on_result(ClassifyResult { id: 3, classification: Ok(TrafficType::TikTok) }, 3);
    let v = state.on_packet(3, vec![1], 4);
    assert_eq!(v.mark, Some(0x803));
    assert_eq!(state.packet_count, 6);
    assert_eq!(state.byte_count, 9);
    assert!(v.pruned.is_none());
    let v = state.on_packet(4, vec![], 40 * SECOND);
    assert_eq!(v.pruned, Some((2, 1)));
    assert!(state.flows.get(3).is_none());
}

#[test]
fn buffered_ingress_throughput_report() {
    let mut state = IngressState::new(0);
    for _ in 0..4 {
        state.on_packet(1, vec![0; 125], 0);
    }
    let v = state.on_packet(1, vec![0; 125], 0);
    assert_eq!(v.status, ClassifyStatus::Classifying);
    state.on_packet(1, vec![0; 125], 0);
    assert!(state.poll_log(SECOND).is_none());
    let r = state.poll_log(2 * SECOND).unwrap();
    assert_eq!(r.packet_count, 6);
    assert_eq!(r.byte_count, 750);
    assert_eq!(r.missed_count, 2);
    assert_eq!(r.packet_interval, 6);
    assert_eq!(r.byte_interval, 750);
    assert_eq!(r.missed_interval, 2);
    assert_eq!(r.elapsed_ns, 2 * SECOND);
    assert_eq!(state.packet_interval, 0);
    let (totals, current) = throughput_lines(&r, &figures(&r));
    assert_eq!(totals, "Total: 6 packets @ 0.00 Gb, Missed: 2");
    assert_eq!(current, "Current: 3.00p/s @ 0.00Mb/s, Missed 33.33% @ 1.00p/s");
    let r = state.poll_log(4 * SECOND).unwrap();
    assert_eq!(r.packet_interval, 0);
    assert_eq!(throughput_lines(&r, &figures(&r)).1, "Current: 0.00p/s @ 0.00Mb/s, Missed NaN% @ 0.00p/s");
}

#[test]
fn throughput_lines_place_figures_as_given() {
    let r = ThroughputReport {
        packet_count: 12,
        byte_count: 0,
        missed_count: 3,
        packet_interval: 0,
        byte_interval: 0,
        missed_interval: 0,
        elapsed_ns: 0,
    };
    let f = ThroughputFigures {
        gigabit_total: "g".to_string(),
        packet_rate: "p".to_string(),
        megabit_rate: "m".to_string(),
        missed_percent: "x".to_string(),
        missed_rate: "r".to_string(),
    };
    let (totals, current) = throughput_lines(&r, &f);
    assert_eq!(totals, "Total: 12 packets @ g Gb, Missed: 3");
    assert_eq!(current, "Current: pp/s @ mMb/s, Missed x% @ rp/s");
}
