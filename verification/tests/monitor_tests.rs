use packet_forwarding_service::classification::model::TrafficType;
use packet_forwarding_service::server::classify::report_classification;
use packet_forwarding_service::server::monitor::{
    classify_csv_row, ingress_csv_row, log_ingress_summary, ClassifyMetrics, IngressMetrics, MonitorState,
    SummaryFigures,
};
use std::time::Duration;

fn metrics(interval_ns: u64) -> IngressMetrics {
    IngressMetrics {
        timestamp_unix_ns: 0,
        interval_ns,
        flow_count: 12,
        classify_backpressure: 3,
        packet_total: 5000,
        byte_total: 2_500_000_000,
        packet_interval: 1000,
        byte_interval: 1_250_000,
        unoptimised_packet_total: 40,
        unoptimised_byte_total: 400,
        unoptimised_packet_interval: 25,
        unoptimised_byte_interval: 250,
    }
}

/// The summary figures as the monitor computes them, with floating point.
fn figures(m: &IngressMetrics) -> SummaryFigures {
    let secs = Duration::from_nanos(m.interval_ns).as_secs_f64();
    let percent = if m.packet_interval == 0 {
        0.0
    } else {
        m.unoptimised_packet_interval as f64 / m.packet_interval as f64 * 100.0
    };
    SummaryFigures {
        packet_rate: format!("{:.2}", m.packet_interval as f64 / secs),
        megabit_rate: format!("{:.2}", (m.byte_interval as f64 / secs) * 8.0 / 1_000_000.0),
        unoptimised_percent: format!("{:.2}", percent),
        unoptimised_packet_rate: format!("{:.2}", m.unoptimised_packet_interval as f64 / secs),
        gigabit_total: format!("{:.2}", (m.byte_total as f64 * 8.0) / 1_000_000_000.0),
    }
}

fn interval_text(m: &IngressMetrics) -> String {
    format!("{:.6}", Duration::from_nanos(m.interval_ns).as_secs_f64())
}

fn summary(m: &IngressMetrics) -> Option<String> {
    log_ingress_summary(m, &figures(m))
}

#[test]
fn summary_of_empty_interval_is_none() {
    assert!(summary(&metrics(0)).is_none());
}

#[test]
fn summary_line() {
    let line = summary(&metrics(2_000_000_000)).unwrap();
    assert_eq!(
        line,
        "Current: 500.00p/s @ 5.00Mb/s, Unoptimised 2.50% @ 12.50p/s, Jobs 3, Flows 12, Total 5000 packets @ 20.00Gb"
    );
}

#[test]
fn summary_matches_float_formatting() {
    let m = IngressMetrics { packet_interval: 7, unoptimised_packet_interval: 1, ..metrics(3_000_000_000) };
    let secs = 3.0f64;
    let expected = format!(
        "Current: {:.2}p/s @ {:.2}Mb/s, Unoptimised {:.2}% @ {:.2}p/s, Jobs {}, Flows {}, Total {} packets @ {:.2}Gb",
        m.packet_interval as f64 / secs,
        (m.byte_interval as f64 / secs) * 8.0 / 1_000_000.0,
        m.unoptimised_packet_interval as f64 / m.packet_interval as f64 * 100.0,
        m.unoptimised_packet_interval as f64 / secs,
        m.classify_backpressure,
        m.flow_count,
        m.packet_total,
        (m.byte_total as f64 * 8.0) / 1_000_000_000.0,
    );
    assert_eq!(summary(&m).unwrap(), expected);
}

#[test]
fn summary_gigabits_near_a_half() {
    let m = IngressMetrics { byte_total: 625_000, ..metrics(1_000_000_000) };
    assert!(summary(&m).unwrap().ends_with(" packets @ 0.01Gb"));
}

#[test]
fn summary_places_figures_as_given() {
    let f = SummaryFigures {
        packet_rate: "a".to_string(),
        megabit_rate: "b".to_string(),
        unoptimised_percent: "c".to_string(),
        unoptimised_packet_rate: "d".to_string(),
        gigabit_total: "e".to_string(),
    };
    assert_eq!(
        log_ingress_summary(&metrics(5), &f).unwrap(),
        "Current: ap/s @ bMb/s, Unoptimised c% @ dp/s, Jobs 3, Flows 12, Total 5000 packets @ eGb"
    );
}

#[test]
fn summary_with_no_packets_has_zero_share() {
    let m = IngressMetrics { packet_interval: 0, unoptimised_packet_interval: 0, ..metrics(1) };
    assert!(summary(&m).unwrap().contains("Unoptimised 0.00% @ "));
}

#[test]
fn ingress_csv_row_columns() {
    let m = IngressMetrics { timestamp_unix_ns: 1_700_000_000_123_456_789, ..metrics(1_000_000_500) };
    assert_eq!(interval_text(&m), "1.000001");
    assert_eq!(
        ingress_csv_row(&m, &interval_text(&m)),
        "2023-11-14T22:13:20.123456789Z,1700000000123,1.000001,12,3,5000,2500000000,1000,1250000,40,400,25,250"
    );
}

#[test]
fn classify_csv_row_columns() {
    let m = ClassifyMetrics {
        timestamp_unix_ns: 0,
        thread_name: "classifier-2".to_string(),
        conntrack_id: 4_000_000_000,
        traffic_type: TrafficType::GoogleMeet,
    };
    assert_eq!(classify_csv_row(&m), "1970-01-01T00:00:00Z,0,classifier-2,4000000000,Google Meet");
}

#[test]
fn successful_classification_is_reported() {
    let (m, r) = report_classification(8, Ok(TrafficType::Youtube), "classifier-1".to_string(), 77);
    let m = m.unwrap();
    assert_eq!(m.conntrack_id, 8);
    assert_eq!(m.traffic_type, TrafficType::Youtube);
    assert_eq!(m.thread_name, "classifier-1");
    assert_eq!(m.timestamp_unix_ns, 77);
    assert_eq!(r.id, 8);
    assert_eq!(r.classification, Ok(TrafficType::Youtube));
}

#[test]
fn failed_classification_is_not_reported() {
    let (m, r) = report_classification(8, Err("no model".to_string()), "w".to_string(), 0);
    assert!(m.is_none());
    assert_eq!(r.classification, Err("no model".to_string()));
}

#[test]
fn monitor_summarises_latest_metrics_each_second() {
    const SECOND: u64 = 1_000_000_000;
    let mut state = MonitorState::new(0);
    let (summary, flush) = state.on_tick(None, SECOND + 1);
    assert_eq!((summary, flush), (None, true));
    let (summary, flush) = state.on_tick(Some(metrics(2 * SECOND)), SECOND + 2);
    assert_eq!((summary, flush), (None, false));
    let (summary, flush) = state.on_tick(None, 2 * SECOND + 2);
    assert!(flush);
    assert_eq!(summary, Some(metrics(2 * SECOND)));
    let newer = IngressMetrics { packet_total: 1, ..metrics(SECOND) };
    let (summary, flush) = state.on_tick(Some(newer), 3 * SECOND + 3);
    assert!(flush);
    assert_eq!(summary, Some(newer));
    assert_eq!(state.last_print, 3 * SECOND + 3);
    let (summary, flush) = state.on_tick(Some(metrics(0)), 5 * SECOND);
    assert_eq!((summary, flush), (Some(metrics(0)), true));
    assert!(log_ingress_summary(&metrics(0), &figures(&metrics(0))).is_none());
}
