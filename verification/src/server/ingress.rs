//! The packet-buffering ingress pipeline: flows are classified from their first
//! `PACKETS_FOR_CLASSIFY` whole packets.
use std::collections::HashMap;

use crate::classification::model::TrafficType;
use crate::server::route::{spec_elapsed, ClassifyStatus};
use crate::server::text::{append_decimal, spec_decimal};
use crate::server::{ClassifyResult, ClassifyTask, ConntrackId};
use vstd::string::StringExecFns;
use vstd::prelude::*;

verus! {

broadcast use vstd::std_specs::hash::group_hash_axioms;

/// Represents a packet firewall mark.
pub type FwMark = u32;

/// Mark for flows whose classification failed.
pub const DEFAULT_MARK: FwMark = 0x801;
/// Packets a flow buffers before it is classified.
pub const PACKETS_FOR_CLASSIFY: usize = 5;
/// How long, in nanoseconds, a flow may stay unseen before it is pruned.
pub const STALE_FLOW_PRUNE_NS: u64 = 30_000_000_000;
/// How often, in nanoseconds, throughput is logged.
pub const LOG_INTERVAL_NS: u64 = 1_000_000_000;

/// The firewall mark for each traffic class in this pipeline.
pub open spec fn spec_mark_for_traffic_type(t: TrafficType) -> FwMark {
    match t {
        TrafficType::GoogleMeet => 0x801,
        TrafficType::Instagram => 0x802,
        TrafficType::TikTok => 0x803,
        TrafficType::Twitter => 0x804,
        TrafficType::Youtube => 0x802,
    }
}

/// The marks this pipeline pins flows to.
pub open spec fn spec_valid_mark(mark: FwMark) -> bool {
    0x801 <= mark <= 0x804
}

/// Map a predicted traffic class to the firewall mark used by forwarding.
pub fn mark_for_traffic_type(traffic_type: TrafficType) -> (mark: u32)
    ensures
        mark == spec_mark_for_traffic_type(traffic_type),
        spec_valid_mark(mark),
{
    match traffic_type {
        TrafficType::GoogleMeet => 0x801,
        TrafficType::Instagram => 0x802,
        TrafficType::TikTok => 0x803,
        TrafficType::Twitter => 0x804,
        TrafficType::Youtube => 0x802,
    }
}

/// Mutable state held for each observed conntrack flow.
pub struct FlowState {
    /// The flow's buffered packets.
    pub buf: Vec<Vec<u8>>,
    pub status: ClassifyStatus,
    /// When the flow was last seen, in nanoseconds of a monotonic clock.
    pub last_seen: u64,
}

/// The abstract state of a flow.
pub struct FlowView {
    pub buf: Seq<Seq<u8>>,
    pub status: ClassifyStatus,
    pub last_seen: u64,
}

/// The contents of buffered packets.
pub open spec fn spec_packets(buf: Seq<Vec<u8>>) -> Seq<Seq<u8>> {
    buf.map_values(|p: Vec<u8>| p@)
}

impl View for FlowState {
    type V = FlowView;

    open spec fn view(&self) -> FlowView {
        FlowView { buf: spec_packets(self.buf@), status: self.status, last_seen: self.last_seen }
    }
}

/// A flow after a packet carrying `payload` was seen at `now`. A new flow starts collecting
/// with that packet; a collecting flow buffers it and moves to classifying once it holds
/// `PACKETS_FOR_CLASSIFY` packets; any other flow only records the time.
pub open spec fn spec_flow_after_packet(prev: Option<FlowView>, payload: Seq<u8>, now: u64) -> FlowView {
    match prev {
        None => FlowView { buf: seq![payload], status: ClassifyStatus::Collecting, last_seen: now },
        Some(f) => if f.status != ClassifyStatus::Collecting {
            FlowView { last_seen: now, ..f }
        } else {
            let buf = f.buf.push(payload);
            FlowView {
                buf,
                status: if buf.len() >= PACKETS_FOR_CLASSIFY {
                    ClassifyStatus::Classifying
                } else {
                    ClassifyStatus::Collecting
                },
                last_seen: now,
            }
        },
    }
}

/// The packets sent for classification when a packet is seen: the flow's buffer, exactly
/// when the packet moves a tracked flow from collecting to classifying.
pub open spec fn spec_task_for_packet(prev: Option<FlowView>, payload: Seq<u8>, now: u64) -> Option<Seq<Seq<u8>>> {
    match prev {
        Some(f) => {
            let after = spec_flow_after_packet(prev, payload, now);
            if f.status == ClassifyStatus::Collecting && after.status == ClassifyStatus::Classifying {
                Some(after.buf)
            } else {
                None
            }
        },
        None => None,
    }
}

/// The tracked flow of `conntrack`, if any.
pub open spec fn spec_lookup(flows: Map<ConntrackId, FlowView>, conntrack: ConntrackId) -> Option<FlowView> {
    if flows.contains_key(conntrack) {
        Some(flows[conntrack])
    } else {
        None
    }
}

/// The flow table after a packet of `conntrack`, carrying `payload`, was seen at `now`.
pub open spec fn spec_table_after_packet(
    flows: Map<ConntrackId, FlowView>,
    conntrack: ConntrackId,
    payload: Seq<u8>,
    now: u64,
) -> Map<ConntrackId, FlowView> {
    flows.insert(conntrack, spec_flow_after_packet(spec_lookup(flows, conntrack), payload, now))
}

/// The mark a classification result pins a flow to.
pub open spec fn spec_result_mark(classification: Result<TrafficType, String>) -> FwMark {
    match classification {
        Ok(t) => spec_mark_for_traffic_type(t),
        Err(_) => DEFAULT_MARK,
    }
}

/// The flow table after a classification result for `id` arrived at `now`.
pub open spec fn spec_table_after_result(
    flows: Map<ConntrackId, FlowView>,
    id: ConntrackId,
    classification: Result<TrafficType, String>,
    now: u64,
) -> Map<ConntrackId, FlowView> {
    if flows.contains_key(id) {
        flows.insert(
            id,
            FlowView {
                status: ClassifyStatus::Pinned(spec_result_mark(classification)),
                last_seen: now,
                ..flows[id]
            },
        )
    } else {
        flows
    }
}

/// Whether a flow was seen recently enough to be kept.
pub open spec fn spec_is_fresh(flow: FlowView, now: u64) -> bool {
    spec_elapsed(flow.last_seen, now) < STALE_FLOW_PRUNE_NS
}

/// The flow table after pruning at `now`: exactly the fresh flows, unchanged.
pub open spec fn spec_table_after_prune(flows: Map<ConntrackId, FlowView>, now: u64) -> Map<ConntrackId, FlowView> {
    flows.restrict(Set::new(|k: ConntrackId| flows.contains_key(k) && spec_is_fresh(flows[k], now)))
}

/// A collecting flow holds fewer than `PACKETS_FOR_CLASSIFY` packets, no flow holds more,
/// and every pinned mark is one of this pipeline's.
pub open spec fn spec_table_wf(flows: Map<ConntrackId, FlowView>) -> bool {
    forall|k: ConntrackId| #[trigger] flows.contains_key(k) ==> {
        &&& flows[k].buf.len() <= PACKETS_FOR_CLASSIFY
        &&& (flows[k].status == ClassifyStatus::Collecting ==> flows[k].buf.len() < PACKETS_FOR_CLASSIFY)
        &&& (flows[k].status matches ClassifyStatus::Pinned(m) ==> spec_valid_mark(m))
    }
}

/// Per-flow state table keyed by conntrack ID.
pub struct FlowTable {
    flows: HashMap<ConntrackId, FlowState>,
}

impl View for FlowTable {
    type V = Map<ConntrackId, FlowView>;

    closed spec fn view(&self) -> Map<ConntrackId, FlowView> {
        self.flows@.map_values(|f: FlowState| f@)
    }
}

impl FlowTable {
    /// The table's invariant.
    pub open spec fn wf(&self) -> bool {
        spec_table_wf(self@)
    }

    /// An empty table.
    pub fn new() -> (table: FlowTable)
        ensures
            table@ == Map::<ConntrackId, FlowView>::empty(),
            table.wf(),
    {
        let table = FlowTable { flows: HashMap::new() };
        assert(table@ =~= Map::<ConntrackId, FlowView>::empty());
        table
    }

    /// Number of tracked flows.
    pub fn len(&self) -> (n: usize)
        ensures
            n == self@.len(),
    {
        proof {
            assert(self.flows@.dom() =~= self@.dom());
        }
        self.flows.len()
    }

    /// The state of a tracked flow.
    pub fn get(&self, conntrack: ConntrackId) -> (flow: Option<&FlowState>)
        ensures
            flow is Some <==> self@.contains_key(conntrack),
            flow matches Some(f) ==> f@ == self@[conntrack],
    {
        self.flows.get(&conntrack)
    }
}

/// A copy of a packet buffer.
fn copy_packets(buf: &Vec<Vec<u8>>) -> (copy: Vec<Vec<u8>>)
    ensures
        spec_packets(copy@) == spec_packets(buf@),
{
    let mut copy: Vec<Vec<u8>> = Vec::with_capacity(buf.len());
    let mut i: usize = 0;
    while i < buf.len()
        invariant
            i <= buf@.len(),
            copy@.len() == i,
            forall|j: int| 0 <= j < i ==> #[trigger] copy@[j]@ == buf@[j]@,
        decreases buf@.len() - i,
    {
        let mut packet: Vec<u8> = Vec::with_capacity(buf[i].len());
        let mut b: usize = 0;
        while b < buf[i].len()
            invariant
                i < buf@.len(),
                b <= buf@[i as int]@.len(),
                packet@ =~= buf@[i as int]@.take(b as int),
            decreases buf@[i as int]@.len() - b,
        {
            packet.push(buf[i][b]);
            b = b + 1;
        }
        assert(packet@ =~= buf@[i as int]@);
        copy.push(packet);
        i = i + 1;
    }
    assert(spec_packets(copy@) =~= spec_packets(buf@));
    copy
}

/// Update flow state for an incoming packet and return the flow's status after it, with
/// the classification task to send when the flow has just buffered enough packets.
pub fn handle_classification(
    flow_map: &mut FlowTable,
    conntrack: ConntrackId,
    payload: Vec<u8>,
    now: u64,
) -> (outcome: (ClassifyStatus, Option<ClassifyTask>))
    requires
        old(flow_map).wf(),
    ensures
        final(flow_map).wf(),
        final(flow_map)@ == spec_table_after_packet(old(flow_map)@, conntrack, payload@, now),
        outcome.0 == final(flow_map)@[conntrack].status,
        outcome.1 is Some == spec_task_for_packet(spec_lookup(old(flow_map)@, conntrack), payload@, now) is Some,
        outcome.1 matches Some(task) ==> {
            &&& task.id == conntrack
            &&& Some(spec_packets(task.buf@)) == spec_task_for_packet(
                spec_lookup(old(flow_map)@, conntrack),
                payload@,
                now,
            )
        },
{
    let ghost prev = spec_lookup(old(flow_map)@, conntrack);
    let ghost bytes = payload@;
    let removed = flow_map.flows.remove(&conntrack);
    match removed {
        Some(mut flow) => {
            assert(Some(flow@) == prev);
            flow.last_seen = now;
            if flow.status != ClassifyStatus::Collecting {
                let status = flow.status;
                flow_map.flows.insert(conntrack, flow);
                assert(flow_map@ =~= spec_table_after_packet(old(flow_map)@, conntrack, bytes, now));
                return (status, None);
            }
            let ghost old_buf = spec_packets(flow.buf@);
            flow.buf.push(payload);
            assert(spec_packets(flow.buf@) =~= old_buf.push(bytes));
            // Tx classify task if ready.
            let mut task: Option<ClassifyTask> = None;
            if flow.buf.len() >= PACKETS_FOR_CLASSIFY {
                task = Some(ClassifyTask { id: conntrack, buf: copy_packets(&flow.buf) });
                flow.status = ClassifyStatus::Classifying;
            }
            let status = flow.status;
            assert(flow@ == spec_flow_after_packet(prev, bytes, now));
            flow_map.flows.insert(conntrack, flow);
            assert(flow_map@ =~= spec_table_after_packet(old(flow_map)@, conntrack, bytes, now));
            (status, task)
        },
        None => {
            // Track new connection.
            let mut buf: Vec<Vec<u8>> = Vec::with_capacity(PACKETS_FOR_CLASSIFY);
            buf.push(payload);
            let flow = FlowState { buf, status: ClassifyStatus::Collecting, last_seen: now };
            assert(flow@.buf =~= seq![bytes]);
            flow_map.flows.insert(conntrack, flow);
            assert(flow_map@ =~= spec_table_after_packet(old(flow_map)@, conntrack, bytes, now));
            (ClassifyStatus::Collecting, None)
        },
    }
}

/// Apply one classification result: a tracked flow is pinned to the mark of its traffic
/// class, or to the default mark when classification failed; results for flows no longer
/// tracked are dropped.
pub fn consume_result(flow_map: &mut FlowTable, result: ClassifyResult, now: u64)
    requires
        old(flow_map).wf(),
    ensures
        final(flow_map).wf(),
        final(flow_map)@ == spec_table_after_result(old(flow_map)@, result.id, result.classification, now),
{
    let id = result.id;
    let removed = flow_map.flows.remove(&id);
    match removed {
        Some(mut flow) => {
            let mark = match result.classification {
                Ok(v) => mark_for_traffic_type(v),
                Err(_) => DEFAULT_MARK,
            };
            flow.status = ClassifyStatus::Pinned(mark);
            flow.last_seen = now;
            flow_map.flows.insert(id, flow);
            assert(flow_map@ =~= spec_table_after_result(old(flow_map)@, id, result.classification, now));
        },
        None => {
            assert(flow_map@ =~= old(flow_map)@);
        },
    }
}

/// Remove the flows not seen within `STALE_FLOW_PRUNE_NS` of `now`.
pub fn prune_flows(flow_map: &mut FlowTable, now: u64)
    requires
        old(flow_map).wf(),
    ensures
        final(flow_map).wf(),
        final(flow_map)@ == spec_table_after_prune(old(flow_map)@, now),
{
    let ghost old_map = old(flow_map).flows@;
    let ghost old_view = old(flow_map)@;
    let mut stale: Vec<ConntrackId> = Vec::new();
    for k in it: flow_map.flows.keys()
        invariant
            flow_map.flows@ == old_map,
            it.seq().unref().to_set() == old_map.dom(),
            forall|j: int| 0 <= j < stale@.len() ==> {
                &&& old_map.contains_key(#[trigger] stale@[j])
                &&& !spec_is_fresh(old_map[stale@[j]]@, now)
            },
            forall|j: int|
                0 <= j < it.index() && !spec_is_fresh(old_map[#[trigger] it.seq().unref()[j]]@, now)
                    ==> stale@.contains(it.seq().unref()[j]),
    {
        assert(it.seq().unref()[it.index()] == *k);
        assert(old_map.dom().contains(*k));
        let ghost old_stale = stale@;
        let flow = flow_map.flows.get(k).unwrap();
        let elapsed = now.saturating_sub(flow.last_seen);
        if elapsed >= STALE_FLOW_PRUNE_NS {
            stale.push(*k);
            assert(stale@[old_stale.len() as int] == *k);
        }
        assert(forall|j: int| 0 <= j < old_stale.len() ==> stale@[j] == old_stale[j]);
        assert(forall|x: ConntrackId| old_stale.contains(x) ==> stale@.contains(x));
    }
    assert forall|key: ConntrackId|
        old_map.contains_key(key) && !spec_is_fresh(old_map[key]@, now) implies #[trigger] stale@.contains(key) by {
    }
    let mut i: usize = 0;
    while i < stale.len()
        invariant
            i <= stale@.len(),
            forall|k: ConntrackId| #[trigger] flow_map.flows@.contains_key(k) <==> old_map.contains_key(k)
                && !stale@.take(i as int).contains(k),
            forall|k: ConntrackId| #[trigger] flow_map.flows@.contains_key(k) ==> flow_map.flows@[k] == old_map[k],
        decreases stale@.len() - i,
    {
        let ghost before = flow_map.flows@;
        let ghost x = stale@[i as int];
        flow_map.flows.remove(&stale[i]);
        assert(flow_map.flows@ == before.remove(x));
        assert forall|k: ConntrackId| #[trigger] stale@.take(i + 1).contains(k) <==> (stale@.take(
            i as int,
        ).contains(k) || k == x) by {
            if stale@.take(i as int).contains(k) {
                let j = choose|j: int| 0 <= j < i && #[trigger] stale@.take(i as int)[j] == k;
                assert(stale@.take(i + 1)[j] == k);
            }
            if k == x {
                assert(stale@.take(i + 1)[i as int] == x);
            }
            if stale@.take(i + 1).contains(k) {
                let j = choose|j: int| 0 <= j < i + 1 && #[trigger] stale@.take(i + 1)[j] == k;
                if j < i {
                    assert(stale@.take(i as int)[j] == k);
                }
            }
        }
        i = i + 1;
    }
    assert(stale@.take(stale@.len() as int) =~= stale@);
    assert(flow_map@ =~= spec_table_after_prune(old_view, now));
}

/// How the ingress thread handles one packet.
pub struct PacketVerdict {
    /// The flow's status after the packet.
    pub status: ClassifyStatus,
    /// The firewall mark to set on the packet; packets of unpinned flows keep theirs.
    pub mark: Option<FwMark>,
    /// The classification job to enqueue, when the packet completed its flow's buffer.
    pub task: Option<ClassifyTask>,
    /// The flow counts before and after pruning, when the packet triggered a prune.
    pub pruned: Option<(usize, usize)>,
}

/// The counts behind the periodic throughput log lines.
pub struct ThroughputReport {
    /// Packets since start.
    pub packet_count: usize,
    /// Payload bytes since start.
    pub byte_count: usize,
    /// Packets since start forwarded before their flow was classified.
    pub missed_count: usize,
    /// Packets in the interval.
    pub packet_interval: usize,
    /// Payload bytes in the interval.
    pub byte_interval: usize,
    /// Packets in the interval forwarded before their flow was classified.
    pub missed_interval: usize,
    /// Length of the interval, in nanoseconds.
    pub elapsed_ns: u64,
}

/// The floating-point figures of the throughput log lines, each written with two
/// decimals: gigabits since start, the interval's packet and megabit rates, the share of
/// its packets that were missed (NaN with no packets) and their rate. They are computed
/// and formatted where floating point is available.
pub struct ThroughputFigures {
    pub gigabit_total: String,
    pub packet_rate: String,
    pub megabit_rate: String,
    pub missed_percent: String,
    pub missed_rate: String,
}

/// The decisions of the packet-buffering ingress loop: flow tracking, marks, pruning and
/// throughput logging. Receiving packets and results and sending verdicts and jobs happen
/// around it.
pub struct IngressState {
    pub flows: FlowTable,
    pub packet_count: usize,
    pub byte_count: usize,
    pub packet_interval: usize,
    pub byte_interval: usize,
    /// Packets forwarded while their flow was being classified.
    pub inefficient_count: usize,
    pub inefficient_interval: usize,
    /// When throughput was last logged, in nanoseconds of a monotonic clock.
    pub last_log_interval: u64,
    /// When flows were last pruned, in nanoseconds of a monotonic clock.
    pub last_pruned: u64,
}

impl IngressState {
    /// The table is well formed and interval counts never exceed totals.
    pub open spec fn wf(&self) -> bool {
        &&& self.flows.wf()
        &&& self.packet_interval <= self.packet_count
        &&& self.byte_interval <= self.byte_count
        &&& self.inefficient_count <= self.packet_count
        &&& self.inefficient_interval <= self.inefficient_count
        &&& self.inefficient_interval <= self.packet_interval
    }

    /// Whether a packet of `len` bytes can be counted without overflow.
    pub open spec fn spec_can_accept(&self, len: nat) -> bool {
        &&& self.packet_count < usize::MAX
        &&& self.byte_count + len <= usize::MAX
    }

    /// The state at start-up, at time `now`.
    pub fn new(now: u64) -> (state: IngressState)
        ensures
            state.wf(),
            state.flows@ == Map::<ConntrackId, FlowView>::empty(),
            state.packet_count == 0 && state.byte_count == 0 && state.inefficient_count == 0,
            state.packet_interval == 0 && state.byte_interval == 0 && state.inefficient_interval == 0,
            state.last_log_interval == now,
            state.last_pruned == now,
    {
        IngressState {
            flows: FlowTable::new(),
            packet_count: 0,
            byte_count: 0,
            packet_interval: 0,
            byte_interval: 0,
            inefficient_count: 0,
            inefficient_interval: 0,
            last_log_interval: now,
            last_pruned: now,
        }
    }

    /// Whether a packet of `len` bytes can be counted without overflow.
    pub fn can_accept(&self, len: usize) -> (ok: bool)
        ensures
            ok == self.spec_can_accept(len as nat),
    {
        self.packet_count < usize::MAX && len <= usize::MAX - self.byte_count
    }

    /// Handle one packet of flow `conntrack` arriving at `now`: track the flow, decide its
    /// mark, count the packet, and prune stale flows when due.
    pub fn on_packet(&mut self, conntrack: ConntrackId, payload: Vec<u8>, now: u64) -> (verdict: PacketVerdict)
        requires
            old(self).wf(),
            old(self).spec_can_accept(payload@.len()),
        ensures
            final(self).wf(),
            final(self).last_log_interval == old(self).last_log_interval,
            ({
                let after = spec_table_after_packet(old(self).flows@, conntrack, payload@, now);
                let task = spec_task_for_packet(spec_lookup(old(self).flows@, conntrack), payload@, now);
                let unoptimised = verdict.status == ClassifyStatus::Classifying;
                &&& verdict.status == after[conntrack].status
                &&& verdict.mark == (match verdict.status {
                    ClassifyStatus::Pinned(m) => Some(m),
                    _ => None,
                })
                &&& verdict.task is Some == task is Some
                &&& (verdict.task matches Some(t) ==> t.id == conntrack && Some(spec_packets(t.buf@)) == task)
                &&& final(self).packet_count == old(self).packet_count + 1
                &&& final(self).packet_interval == old(self).packet_interval + 1
                &&& final(self).byte_count == old(self).byte_count + payload@.len()
                &&& final(self).byte_interval == old(self).byte_interval + payload@.len()
                &&& final(self).inefficient_count == old(self).inefficient_count + if unoptimised { 1int } else { 0 }
                &&& final(self).inefficient_interval == old(self).inefficient_interval + if unoptimised { 1int } else { 0 }
                &&& if spec_elapsed(old(self).last_pruned, now) > STALE_FLOW_PRUNE_NS {
                    &&& final(self).flows@ == spec_table_after_prune(after, now)
                    &&& final(self).last_pruned == now
                    &&& verdict.pruned == Some((after.len() as usize, final(self).flows@.len() as usize))
                } else {
                    &&& final(self).flows@ == after
                    &&& final(self).last_pruned == old(self).last_pruned
                    &&& verdict.pruned is None
                }
            }),
    {
        let len = payload.len();
        // Tx classify task.
        let (status, task) = handle_classification(&mut self.flows, conntrack, payload, now);
        // Tx packet.
        let mark = match status {
            ClassifyStatus::Collecting | ClassifyStatus::Classifying => None,
            ClassifyStatus::Pinned(mark) => Some(mark),
        };
        // Metrics.
        self.packet_count = self.packet_count + 1;
        self.packet_interval = self.packet_interval + 1;
        self.byte_count = self.byte_count + len;
        self.byte_interval = self.byte_interval + len;
        if status == ClassifyStatus::Classifying {
            self.inefficient_count = self.inefficient_count + 1;
            self.inefficient_interval = self.inefficient_interval + 1;
        }
        // Prune old connections.
        let mut pruned: Option<(usize, usize)> = None;
        if now.saturating_sub(self.last_pruned) > STALE_FLOW_PRUNE_NS {
            let old_conns = self.flows.len();
            prune_flows(&mut self.flows, now);
            let new_conns = self.flows.len();
            pruned = Some((old_conns, new_conns));
            self.last_pruned = now;
        }
        PacketVerdict { status, mark, task, pruned }
    }

    /// Apply a classification result arriving at `now`.
    pub fn on_result(&mut self, result: ClassifyResult, now: u64)
        requires
            old(self).wf(),
        ensures
            final(self).wf(),
            final(self).flows@ == spec_table_after_result(old(self).flows@, result.id, result.classification, now),
            final(self).packet_count == old(self).packet_count,
            final(self).byte_count == old(self).byte_count,
            final(self).packet_interval == old(self).packet_interval,
            final(self).byte_interval == old(self).byte_interval,
            final(self).inefficient_count == old(self).inefficient_count,
            final(self).inefficient_interval == old(self).inefficient_interval,
            final(self).last_log_interval == old(self).last_log_interval,
            final(self).last_pruned == old(self).last_pruned,
    {
        consume_result(&mut self.flows, result, now);
    }

    /// The throughput figures to log at `now`, when more than `LOG_INTERVAL_NS` passed
    /// since the last log, after which a new interval starts. `None`, with nothing changed,
    /// otherwise.
    pub fn poll_log(&mut self, now: u64) -> (report: Option<ThroughputReport>)
        requires
            old(self).wf(),
        ensures
            final(self).wf(),
            final(self).flows@ == old(self).flows@,
            final(self).packet_count == old(self).packet_count,
            final(self).byte_count == old(self).byte_count,
            final(self).inefficient_count == old(self).inefficient_count,
            final(self).last_pruned == old(self).last_pruned,
            report is Some <==> spec_elapsed(old(self).last_log_interval, now) > LOG_INTERVAL_NS,
            report is None ==> {
                &&& final(self).packet_interval == old(self).packet_interval
                &&& final(self).byte_interval == old(self).byte_interval
                &&& final(self).inefficient_interval == old(self).inefficient_interval
                &&& final(self).last_log_interval == old(self).last_log_interval
            },
            report matches Some(r) ==> {
                let s = *old(self);
                &&& r.packet_count == s.packet_count
                &&& r.byte_count == s.byte_count
                &&& r.missed_count == s.inefficient_count
                &&& r.packet_interval == s.packet_interval
                &&& r.byte_interval == s.byte_interval
                &&& r.missed_interval == s.inefficient_interval
                &&& r.elapsed_ns == spec_elapsed(s.last_log_interval, now)
                &&& final(self).packet_interval == 0
                &&& final(self).byte_interval == 0
                &&& final(self).inefficient_interval == 0
                &&& final(self).last_log_interval == now
            },
    {
        let elapsed = now.saturating_sub(self.last_log_interval);
        if elapsed <= LOG_INTERVAL_NS {
            return None;
        }
        let report = ThroughputReport {
            packet_count: self.packet_count,
            byte_count: self.byte_count,
            missed_count: self.inefficient_count,
            packet_interval: self.packet_interval,
            byte_interval: self.byte_interval,
            missed_interval: self.inefficient_interval,
            elapsed_ns: elapsed,
        };
        self.packet_interval = 0;
        self.byte_interval = 0;
        self.inefficient_interval = 0;
        self.last_log_interval = now;
        Some(report)
    }
}

/// A collecting flow buffers its packets in arrival order, and its buffer goes out for
/// classification on the packet that makes it `PACKETS_FOR_CLASSIFY` packets long.
pub proof fn lemma_buffer_in_arrival_order(flow: FlowView, payload: Seq<u8>, now: u64)
    requires
        flow.status == ClassifyStatus::Collecting,
    ensures
        spec_flow_after_packet(Some(flow), payload, now).buf == flow.buf.push(payload),
        flow.buf.len() + 1 == PACKETS_FOR_CLASSIFY ==> spec_task_for_packet(Some(flow), payload, now) == Some(
            flow.buf.push(payload),
        ),
        flow.buf.len() + 1 < PACKETS_FOR_CLASSIFY ==> spec_task_for_packet(Some(flow), payload, now) is None,
{
}

/// A flow past collecting keeps its status and buffer, and sends no further task.
pub proof fn lemma_settled_flow_unchanged(flow: FlowView, payload: Seq<u8>, now: u64)
    requires
        flow.status != ClassifyStatus::Collecting,
    ensures
        spec_flow_after_packet(Some(flow), payload, now).status == flow.status,
        spec_flow_after_packet(Some(flow), payload, now).buf == flow.buf,
        spec_task_for_packet(Some(flow), payload, now) is None,
{
}

/// A new flow starts collecting with its first packet and sends no task yet.
pub proof fn lemma_new_flow_collects(payload: Seq<u8>, now: u64)
    ensures
        spec_flow_after_packet(None, payload, now).status == ClassifyStatus::Collecting,
        spec_flow_after_packet(None, payload, now).buf == seq![payload],
        spec_task_for_packet(None, payload, now) is None,
{
}

/// Once a result pins a tracked flow, later packets of the flow carry the result's mark.
pub proof fn lemma_pinned_flow_keeps_mark(
    flows: Map<ConntrackId, FlowView>,
    id: ConntrackId,
    classification: Result<TrafficType, String>,
    pinned_at: u64,
    payload: Seq<u8>,
    now: u64,
)
    requires
        flows.contains_key(id),
    ensures
        spec_table_after_packet(spec_table_after_result(flows, id, classification, pinned_at), id, payload, now)[id].status
            == ClassifyStatus::Pinned(spec_result_mark(classification)),
{
}

/// A new flow after a run of its packets, all seen at `now`; `None` before its first packet.
pub open spec fn spec_flow_after_packets(packets: Seq<Seq<u8>>, now: u64) -> Option<FlowView>
    decreases packets.len(),
{
    if packets.len() == 0 {
        None
    } else {
        Some(spec_flow_after_packet(spec_flow_after_packets(packets.drop_last(), now), packets.last(), now))
    }
}

/// A new flow buffers exactly its first packets while collecting, and its
/// `PACKETS_FOR_CLASSIFY`-th packet sends those packets, in arrival order, for
/// classification.
pub proof fn lemma_first_packets_sent_in_order(packets: Seq<Seq<u8>>, now: u64)
    requires
        1 <= packets.len() <= PACKETS_FOR_CLASSIFY,
    ensures
        spec_flow_after_packets(packets, now) is Some,
        spec_flow_after_packets(packets, now).unwrap().buf == packets,
        packets.len() < PACKETS_FOR_CLASSIFY ==> spec_flow_after_packets(packets, now).unwrap().status
            == ClassifyStatus::Collecting,
        packets.len() == PACKETS_FOR_CLASSIFY ==> {
            &&& spec_flow_after_packets(packets, now).unwrap().status == ClassifyStatus::Classifying
            &&& spec_task_for_packet(spec_flow_after_packets(packets.drop_last(), now), packets.last(), now)
                == Some(packets)
        },
    decreases packets.len(),
{
    let init = packets.drop_last();
    if packets.len() == 1 {
        assert(init.len() == 0);
        assert(seq![packets.last()] =~= packets);
    } else {
        lemma_first_packets_sent_in_order(init, now);
        assert(init.push(packets.last()) =~= packets);
    }
}

/// The two throughput log lines for a report and its figures: totals, then the
/// interval's rates.
pub open spec fn spec_throughput_lines(r: ThroughputReport, f: ThroughputFigures) -> (Seq<char>, Seq<char>) {
    (
        "Total: "@ + spec_decimal(r.packet_count as nat) + " packets @ "@ + f.gigabit_total@
            + " Gb, Missed: "@ + spec_decimal(r.missed_count as nat),
        "Current: "@ + f.packet_rate@ + "p/s @ "@ + f.megabit_rate@ + "Mb/s, Missed "@
            + f.missed_percent@ + "% @ "@ + f.missed_rate@ + "p/s"@,
    )
}

/// The two throughput log lines for a report and its figures.
pub fn throughput_lines(r: &ThroughputReport, f: &ThroughputFigures) -> (lines: (String, String))
    ensures
        lines.0@ == spec_throughput_lines(*r, *f).0,
        lines.1@ == spec_throughput_lines(*r, *f).1,
{
    let mut totals = String::new();
    totals.append("Total: ");
    append_decimal(&mut totals, r.packet_count as u128);
    totals.append(" packets @ ");
    totals.append(f.gigabit_total.as_str());
    totals.append(" Gb, Missed: ");
    append_decimal(&mut totals, r.missed_count as u128);
    let mut current = String::new();
    current.append("Current: ");
    current.append(f.packet_rate.as_str());
    current.append("p/s @ ");
    current.append(f.megabit_rate.as_str());
    current.append("Mb/s, Missed ");
    current.append(f.missed_percent.as_str());
    current.append("% @ ");
    current.append(f.missed_rate.as_str());
    current.append("p/s");
    assert(totals@ =~= spec_throughput_lines(*r, *f).0);
    assert(current@ =~= spec_throughput_lines(*r, *f).1);
    (totals, current)
}

} // verus!
