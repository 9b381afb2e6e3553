use crate::classification::model::TrafficType;
use crate::server::monitor::ClassifyMetrics;
use crate::server::route::ConntrackId;
use vstd::prelude::*;

verus! {

/// Classification work item sent from ingress to a worker thread.
pub struct ClassifyTask {
    pub id: ConntrackId,
    pub sample: Vec<u8>,
}

/// Classification result returned from a worker to ingress; an inference failure is
/// carried as its message.
pub struct ClassifyResult {
    pub id: ConntrackId,
    pub classification: Result<TrafficType, String>,
}

/// What a classify worker does with the outcome of one task: a successful classification
/// is reported to the monitor, and every outcome is handed back to ingress.
pub fn report_classification(
    task_id: ConntrackId,
    outcome: Result<TrafficType, String>,
    thread_name: String,
    timestamp_unix_ns: u64,
) -> (report: (Option<ClassifyMetrics>, ClassifyResult))
    ensures
        report.1.id == task_id,
        report.1.classification == outcome,
        report.0 is Some <==> outcome is Ok,
        report.0 matches Some(m) ==> {
            &&& m.conntrack_id == task_id
            &&& m.traffic_type == outcome->Ok_0
            &&& m.thread_name == thread_name
            &&& m.timestamp_unix_ns == timestamp_unix_ns
        },
{
    let metrics = match &outcome {
        Ok(t) => Some(
            ClassifyMetrics { timestamp_unix_ns, thread_name, conntrack_id: task_id, traffic_type: *t },
        ),
        Err(_) => None,
    };
    (metrics, ClassifyResult { id: task_id, classification: outcome })
}

} // verus!
