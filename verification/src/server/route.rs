use std::collections::HashMap;

use crate::classification::model::TrafficType;
use crate::server::classify::{ClassifyResult, ClassifyTask};
use crate::server::monitor::IngressMetrics;
use vstd::prelude::*;

verus! {

broadcast use vstd::std_specs::hash::group_hash_axioms;

/// Represents a kernel-level conntrack ID for a given flow.
pub type ConntrackId = u32;

/// Represents a packet firewall mark.
pub type FwMark = u32;

/// Mark for flows that could not be classified, and for packets of unpinned flows.
pub const DEFAULT_MARK: FwMark = 0x801;
/// Sample bytes a flow collects for the model (one 28 x 28 image).
pub const FLOW_CLASSIFY_BYTES: usize = 784;
/// Packets after which a flow with some sample bytes is classified.
pub const MIN_PACKETS_FOR_CLASSIFY: usize = 5;
/// How long, in nanoseconds, a flow may stay unseen before it is pruned.
pub const FLOW_PRUNE_INTERVAL_NS: u64 = 30_000_000_000;
/// How often, in nanoseconds, metrics are pushed.
pub const LOG_INTERVAL_NS: u64 = 1_000_000_000;

/// Represents how the system should handle packets.
#[derive(Clone, Copy, Debug, PartialEq, Eq, Structural)]
pub enum RouteMode {
    /// Accept all packets.
    Disabled,
    /// Block traffic for classification, then direct.
    Blocking,
    /// Accept traffic before classification, then redirect.
    NonBlocking,
}

/// Classification progress for a tracked conntrack flow.
///
/// A flow starts in `Collecting`, moves to `Classifying` once enough sample bytes or
/// packets have been seen, and is finally pinned to a forwarding mark after inference.
#[derive(Clone, Copy, Debug, PartialEq, Eq, Structural)]
pub enum ClassifyStatus {
    Collecting,
    Classifying,
    Pinned(FwMark),
}

/// What to do with a packet.
#[derive(Clone, Copy, Debug, PartialEq, Eq, Structural)]
pub enum ForwardingAction {
    /// Let the packet through, with the given mark or none of its own.
    Accept { mark: Option<FwMark> },
    /// Hold the packet back until its flow is classified.
    Hold,
}

/// ASCII lower-casing of one byte.
pub open spec fn spec_ascii_lower(b: u8) -> u8 {
    if 65 <= b <= 90 {
        (b + 32) as u8
    } else {
        b
    }
}

/// ASCII case-insensitive equality of two byte strings, as `str::eq_ignore_ascii_case`.
pub open spec fn spec_eq_ignore_ascii_case(a: Seq<u8>, b: Seq<u8>) -> bool {
    &&& a.len() == b.len()
    &&& forall|i: int| 0 <= i < a.len() ==> spec_ascii_lower(#[trigger] a[i]) == spec_ascii_lower(b[i])
}

/// ASCII case-insensitive equality of two byte strings.
pub fn eq_ignore_ascii_case(a: &[u8], b: &[u8]) -> (equal: bool)
    ensures
        equal == spec_eq_ignore_ascii_case(a@, b@),
{
    if a.len() != b.len() {
        return false;
    }
    let mut i: usize = 0;
    while i < a.len()
        invariant
            a@.len() == b@.len(),
            i <= a@.len(),
            forall|j: int| 0 <= j < i ==> spec_ascii_lower(#[trigger] a@[j]) == spec_ascii_lower(b@[j]),
        decreases a@.len() - i,
    {
        let x = a[i];
        let y = b[i];
        let lx: u8 = if 65 <= x && x <= 90 { x + 32 } else { x };
        let ly: u8 = if 65 <= y && y <= 90 { y + 32 } else { y };
        if lx != ly {
            return false;
        }
        i = i + 1;
    }
    true
}

/// The route mode a `PFS_ROUTE_MODE` setting selects: "none", "blocking", "nonblocking" or
/// "non-blocking" in any ASCII case; anything else, or no setting, selects non-blocking.
pub open spec fn spec_route_mode(setting: Option<Seq<u8>>) -> RouteMode {
    match setting {
        Some(v) => if spec_eq_ignore_ascii_case(v, seq![110u8, 111, 110, 101]) {
            RouteMode::Disabled
        } else if spec_eq_ignore_ascii_case(v, seq![98u8, 108, 111, 99, 107, 105, 110, 103]) {
            RouteMode::Blocking
        } else {
            RouteMode::NonBlocking
        },
        None => RouteMode::NonBlocking,
    }
}

impl RouteMode {
    /// The route mode for the bytes of the `PFS_ROUTE_MODE` setting (`None` when unset
    /// or unreadable).
    pub fn from_setting(setting: Option<&[u8]>) -> (mode: RouteMode)
        ensures
            mode == spec_route_mode(
                match setting {
                    Some(v) => Some(v@),
                    None => None,
                },
            ),
    {
        match setting {
            Some(v) => {
                let none_word: [u8; 4] = [110, 111, 110, 101];
                let blocking_word: [u8; 8] = [98, 108, 111, 99, 107, 105, 110, 103];
                assert(none_word@ =~= seq![110u8, 111, 110, 101]);
                assert(blocking_word@ =~= seq![98u8, 108, 111, 99, 107, 105, 110, 103]);
                if eq_ignore_ascii_case(v, none_word.as_slice()) {
                    RouteMode::Disabled
                } else if eq_ignore_ascii_case(v, blocking_word.as_slice()) {
                    RouteMode::Blocking
                } else {
                    RouteMode::NonBlocking
                }
            },
            None => RouteMode::NonBlocking,
        }
    }
}

/// The firewall mark for each traffic class.
pub open spec fn spec_mark_for_traffic_type(t: TrafficType) -> FwMark {
    match t {
        TrafficType::GoogleMeet | TrafficType::Youtube => 0x801,
        TrafficType::Instagram | TrafficType::TikTok => 0x802,
        TrafficType::Twitter => 0x803,
    }
}

/// The marks packets are ever forwarded with.
pub open spec fn spec_valid_mark(mark: FwMark) -> bool {
    mark == 0x801 || mark == 0x802 || mark == 0x803
}

/// Map a predicted traffic class to the firewall mark used by forwarding.
pub fn mark_for_traffic_type(traffic_type: TrafficType) -> (mark: FwMark)
    ensures
        mark == spec_mark_for_traffic_type(traffic_type),
        spec_valid_mark(mark),
{
    match traffic_type {
        TrafficType::GoogleMeet | TrafficType::Youtube => 0x801,
        TrafficType::Instagram | TrafficType::TikTok => 0x802,
        TrafficType::Twitter => 0x803,
    }
}

/// The action for a packet of a flow in the given status. A pinned flow's packets carry
/// its mark in both routing modes; before that, non-blocking mode lets packets through
/// with no mark of their own and blocking mode holds them back. With routing disabled
/// every packet is accepted with no mark of its own.
pub open spec fn spec_forwarding_action(status: ClassifyStatus, route_mode: RouteMode) -> ForwardingAction {
    match route_mode {
        RouteMode::Disabled => ForwardingAction::Accept { mark: None },
        RouteMode::NonBlocking => match status {
            ClassifyStatus::Pinned(mark) => ForwardingAction::Accept { mark: Some(mark) },
            _ => ForwardingAction::Accept { mark: None },
        },
        RouteMode::Blocking => match status {
            ClassifyStatus::Pinned(mark) => ForwardingAction::Accept { mark: Some(mark) },
            _ => ForwardingAction::Hold,
        },
    }
}

/// With routing disabled every packet is accepted with the default mark, whatever its
/// flow's status; only blocking mode ever holds a packet back, and only one of a flow not
/// yet pinned; a pinned flow's packets carry its mark whenever routing is on, and in
/// non-blocking mode the other packets go with the default mark.
pub proof fn lemma_forwarding_by_route_mode(status: ClassifyStatus, route_mode: RouteMode)
    ensures
        spec_forwarding_action(status, RouteMode::Disabled) == (ForwardingAction::Accept { mark: None }),
        spec_packet_mark(spec_forwarding_action(status, RouteMode::Disabled)) == Some(DEFAULT_MARK),
        spec_forwarding_action(status, route_mode) is Hold <==> route_mode == RouteMode::Blocking
            && status !is Pinned,
        route_mode != RouteMode::Disabled ==> (status matches ClassifyStatus::Pinned(m) ==> spec_packet_mark(
            spec_forwarding_action(status, route_mode),
        ) == Some(m)),
        route_mode == RouteMode::NonBlocking && status !is Pinned ==> spec_packet_mark(
            spec_forwarding_action(status, route_mode),
        ) == Some(DEFAULT_MARK),
{
}

/// Determine how to forward a packet of a flow in the given status.
pub fn forwarding_action(status: &ClassifyStatus, route_mode: RouteMode) -> (action: ForwardingAction)
    ensures
        action == spec_forwarding_action(*status, route_mode),
{
    match route_mode {
        RouteMode::Disabled => ForwardingAction::Accept { mark: None },
        RouteMode::Blocking => match status {
            // Accumulate packets to be released upon classification.
            ClassifyStatus::Collecting | ClassifyStatus::Classifying => ForwardingAction::Hold,
            ClassifyStatus::Pinned(mark) => ForwardingAction::Accept { mark: Some(*mark) },
        },
        RouteMode::NonBlocking => match status {
            ClassifyStatus::Collecting | ClassifyStatus::Classifying => ForwardingAction::Accept {
                mark: None,
            },
            ClassifyStatus::Pinned(mark) => ForwardingAction::Accept { mark: Some(*mark) },
        },
    }
}

/// The mark a packet is let through with for a forwarding action (its own, or the default
/// one); `None` for a packet held back.
pub open spec fn spec_packet_mark(action: ForwardingAction) -> Option<FwMark> {
    match action {
        ForwardingAction::Accept { mark: Some(m) } => Some(m),
        ForwardingAction::Accept { mark: None } => Some(DEFAULT_MARK),
        ForwardingAction::Hold => None,
    }
}

/// Mutable state held for each observed conntrack flow.
pub struct FlowState {
    /// The accumulated bytes of an observed flow.
    pub sample: Vec<u8>,
    pub packets_seen: usize,
    pub status: ClassifyStatus,
    /// When the flow was last seen, in nanoseconds of a monotonic clock.
    pub last_seen: u64,
}

/// The abstract state of a flow.
pub struct FlowView {
    pub sample: Seq<u8>,
    pub packets_seen: nat,
    pub status: ClassifyStatus,
    pub last_seen: u64,
}

impl View for FlowState {
    type V = FlowView;

    open spec fn view(&self) -> FlowView {
        FlowView {
            sample: self.sample@,
            packets_seen: self.packets_seen as nat,
            status: self.status,
            last_seen: self.last_seen,
        }
    }
}

/// A flow seen for the first time.
pub open spec fn spec_new_flow(now: u64) -> FlowView {
    FlowView { sample: Seq::empty(), packets_seen: 0, status: ClassifyStatus::Collecting, last_seen: now }
}

/// Whether a flow has collected enough to be classified.
pub open spec fn spec_ready_to_classify(sample_len: nat, packets_seen: nat) -> bool {
    sample_len >= FLOW_CLASSIFY_BYTES || (packets_seen >= MIN_PACKETS_FOR_CLASSIFY && sample_len > 0)
}

/// How many bytes of a packet still fit into a sample of the given length.
pub open spec fn spec_copied_len(sample_len: nat, packet_len: nat) -> nat {
    let available: nat = if sample_len < FLOW_CLASSIFY_BYTES {
        (FLOW_CLASSIFY_BYTES - sample_len) as nat
    } else {
        0
    };
    if packet_len < available {
        packet_len
    } else {
        available
    }
}

/// A flow after one more of its packets, carrying `bytes`, was seen at `now`: a flow that is
/// collecting appends what still fits of the packet to its sample and counts the packet,
/// and moves to classifying once it is ready; any other flow only records the time.
pub open spec fn spec_flow_after_packet(flow: FlowView, bytes: Seq<u8>, now: u64) -> FlowView {
    if flow.status != ClassifyStatus::Collecting {
        FlowView { last_seen: now, ..flow }
    } else {
        let sample = flow.sample + bytes.take(spec_copied_len(flow.sample.len(), bytes.len()) as int);
        let packets_seen = flow.packets_seen + 1;
        FlowView {
            sample,
            packets_seen,
            status: if spec_ready_to_classify(sample.len(), packets_seen) {
                ClassifyStatus::Classifying
            } else {
                ClassifyStatus::Collecting
            },
            last_seen: now,
        }
    }
}

/// A packet of a collecting flow adds the bytes that still fit to the end of its sample
/// (the sample never grows past `FLOW_CLASSIFY_BYTES`) and counts the packet; the flow moves
/// to classifying exactly when its sample is then full, or when it has seen
/// `MIN_PACKETS_FOR_CLASSIFY` packets and holds some bytes, and otherwise keeps collecting.
/// The packet that moves it sends the whole sample for classification; no other packet
/// sends anything.
pub proof fn lemma_collecting_flow_classified_when_ready(flow: FlowView, bytes: Seq<u8>, now: u64)
    requires
        flow.status == ClassifyStatus::Collecting,
        flow.sample.len() <= FLOW_CLASSIFY_BYTES,
    ensures
        ({
            let after = spec_flow_after_packet(flow, bytes, now);
            let n = after.sample.len();
            &&& n == if flow.sample.len() + bytes.len() <= FLOW_CLASSIFY_BYTES {
                flow.sample.len() + bytes.len()
            } else {
                FLOW_CLASSIFY_BYTES as nat
            }
            &&& after.sample.take(flow.sample.len() as int) == flow.sample
            &&& after.sample.skip(flow.sample.len() as int) == bytes.take(n - flow.sample.len())
            &&& after.packets_seen == flow.packets_seen + 1
            &&& after.last_seen == now
            &&& (after.status == ClassifyStatus::Classifying <==> (n >= FLOW_CLASSIFY_BYTES || (flow.packets_seen + 1
                >= MIN_PACKETS_FOR_CLASSIFY && n > 0)))
            &&& (after.status == ClassifyStatus::Collecting || after.status == ClassifyStatus::Classifying)
            &&& spec_task_for_packet(flow, bytes, now) == if after.status == ClassifyStatus::Classifying {
                Some(after.sample)
            } else {
                None
            }
        }),
{
    let after = spec_flow_after_packet(flow, bytes, now);
    let copied = spec_copied_len(flow.sample.len(), bytes.len());
    assert(after.sample.take(flow.sample.len() as int) =~= flow.sample);
    assert(after.sample.skip(flow.sample.len() as int) =~= bytes.take(copied as int));
}

/// The sample sent for classification when a packet is seen: the flow's sample, exactly
/// when the packet moves the flow from collecting to classifying.
pub open spec fn spec_task_for_packet(flow: FlowView, bytes: Seq<u8>, now: u64) -> Option<Seq<u8>> {
    let after = spec_flow_after_packet(flow, bytes, now);
    if flow.status == ClassifyStatus::Collecting && after.status == ClassifyStatus::Classifying {
        Some(after.sample)
    } else {
        None
    }
}

/// The flow a packet of `conntrack` updates: the tracked one, or a new one.
pub open spec fn spec_flow_before(flows: Map<ConntrackId, FlowView>, conntrack: ConntrackId, now: u64) -> FlowView {
    if flows.contains_key(conntrack) {
        flows[conntrack]
    } else {
        spec_new_flow(now)
    }
}

/// The flow table after a packet of `conntrack`, carrying `bytes`, was seen at `now`.
pub open spec fn spec_table_after_packet(
    flows: Map<ConntrackId, FlowView>,
    conntrack: ConntrackId,
    bytes: Seq<u8>,
    now: u64,
) -> Map<ConntrackId, FlowView> {
    flows.insert(conntrack, spec_flow_after_packet(spec_flow_before(flows, conntrack, now), bytes, now))
}

/// The mark a classification result pins a flow to.
pub open spec fn spec_result_mark(classification: Result<TrafficType, String>) -> FwMark {
    match classification {
        Ok(t) => spec_mark_for_traffic_type(t),
        Err(_) => DEFAULT_MARK,
    }
}

/// The flow table after a classification result for `id` arrived at `now`: a tracked flow
/// is pinned to the result's mark; a result for a flow no longer tracked changes nothing.
pub open spec fn spec_table_after_result(
    flows: Map<ConntrackId, FlowView>,
    id: ConntrackId,
    classification: Result<TrafficType, String>,
    now: u64,
) -> Map<ConntrackId, FlowView> {
    if flows.contains_key(id) {
        flows.insert(
            id,
            FlowView {
                status: ClassifyStatus::Pinned(spec_result_mark(classification)),
                last_seen: now,
                ..flows[id]
            },
        )
    } else {
        flows
    }
}

/// The nanoseconds elapsed between two readings of a monotonic clock; zero when `now` is
/// not later, as `Instant::elapsed` saturates.
pub open spec fn spec_elapsed(since: u64, now: u64) -> nat {
    if now >= since {
        (now - since) as nat
    } else {
        0
    }
}

/// Whether a flow was seen recently enough to be kept.
pub open spec fn spec_is_fresh(flow: FlowView, now: u64) -> bool {
    spec_elapsed(flow.last_seen, now) < FLOW_PRUNE_INTERVAL_NS
}

/// The flows kept by pruning at `now`.
pub open spec fn spec_fresh_flows(flows: Map<ConntrackId, FlowView>, now: u64) -> Set<ConntrackId> {
    Set::new(|k: ConntrackId| flows.contains_key(k) && spec_is_fresh(flows[k], now))
}

/// The flow table after pruning at `now`: exactly the fresh flows, unchanged.
pub open spec fn spec_table_after_prune(flows: Map<ConntrackId, FlowView>, now: u64) -> Map<ConntrackId, FlowView> {
    flows.restrict(spec_fresh_flows(flows, now))
}

/// A flow's sample fits the model input, a collecting flow is never already ready to be
/// classified, and a pinned mark is one packets are forwarded with.
pub open spec fn spec_flow_wf(flow: FlowView) -> bool {
    &&& flow.sample.len() <= FLOW_CLASSIFY_BYTES
    &&& (flow.status == ClassifyStatus::Collecting ==> !spec_ready_to_classify(flow.sample.len(), flow.packets_seen))
    &&& (flow.status matches ClassifyStatus::Pinned(m) ==> spec_valid_mark(m))
}

/// Every tracked flow is well formed.
pub open spec fn spec_table_wf(flows: Map<ConntrackId, FlowView>) -> bool {
    forall|k: ConntrackId| #[trigger] flows.contains_key(k) ==> spec_flow_wf(flows[k])
}

/// Per-flow state table keyed by conntrack ID.
pub struct FlowTable {
    flows: HashMap<ConntrackId, FlowState>,
}

impl View for FlowTable {
    type V = Map<ConntrackId, FlowView>;

    closed spec fn view(&self) -> Map<ConntrackId, FlowView> {
        self.flows@.map_values(|f: FlowState| f@)
    }
}

impl FlowTable {
    /// The table's invariant.
    pub open spec fn wf(&self) -> bool {
        spec_table_wf(self@)
    }

    /// An empty table.
    pub fn new() -> (table: FlowTable)
        ensures
            table@ == Map::<ConntrackId, FlowView>::empty(),
            table.wf(),
    {
        let table = FlowTable { flows: HashMap::new() };
        assert(table@ =~= Map::<ConntrackId, FlowView>::empty());
        table
    }

    /// Number of tracked flows.
    pub fn len(&self) -> (n: usize)
        ensures
            n == self@.len(),
    {
        proof {
            assert(self.flows@.dom() =~= self@.dom());
        }
        self.flows.len()
    }

    /// The state of a tracked flow.
    pub fn get(&self, conntrack: ConntrackId) -> (flow: Option<&FlowState>)
        ensures
            flow is Some <==> self@.contains_key(conntrack),
            flow matches Some(f) ==> f@ == self@[conntrack],
    {
        self.flows.get(&conntrack)
    }
}

/// Update flow state for an incoming packet and return the flow's status after it,
/// with the classification task to send when the flow has just become ready.
///
/// New flows are inserted into the tracking table in the collecting state; collecting flows
/// append the packet's bytes that still fit into their sample.
pub fn handle_classification(
    flow_map: &mut FlowTable,
    conntrack: ConntrackId,
    sample_bytes: &[u8],
    now: u64,
) -> (outcome: (ClassifyStatus, Option<ClassifyTask>))
    requires
        old(flow_map).wf(),
        old(flow_map)@.contains_key(conntrack) && old(flow_map)@[conntrack].status == ClassifyStatus::Collecting
            ==> old(flow_map)@[conntrack].packets_seen < usize::MAX,
    ensures
        final(flow_map).wf(),
        final(flow_map)@ == spec_table_after_packet(old(flow_map)@, conntrack, sample_bytes@, now),
        outcome.0 == final(flow_map)@[conntrack].status,
        outcome.1 is Some == spec_task_for_packet(
            spec_flow_before(old(flow_map)@, conntrack, now),
            sample_bytes@,
            now,
        ) is Some,
        outcome.1 matches Some(task) ==> {
            &&& task.id == conntrack
            &&& Some(task.sample@) == spec_task_for_packet(
                spec_flow_before(old(flow_map)@, conntrack, now),
                sample_bytes@,
                now,
            )
        },
{
    let ghost before = spec_flow_before(old(flow_map)@, conntrack, now);
    let removed = flow_map.flows.remove(&conntrack);
    let mut flow = match removed {
        Some(flow) => flow,
        None => FlowState {
            sample: Vec::with_capacity(FLOW_CLASSIFY_BYTES),
            packets_seen: 0,
            status: ClassifyStatus::Collecting,
            last_seen: now,
        },
    };
    assert(flow@ == before);
    flow.last_seen = now;
    if flow.status != ClassifyStatus::Collecting {
        let status = flow.status;
        flow_map.flows.insert(conntrack, flow);
        assert(flow_map@ =~= spec_table_after_packet(old(flow_map)@, conntrack, sample_bytes@, now));
        return (status, None);
    }
    // Accumulate bytes.
    flow.packets_seen = flow.packets_seen + 1;
    let available = FLOW_CLASSIFY_BYTES.saturating_sub(flow.sample.len());
    let copied_len = if sample_bytes.len() < available {
        sample_bytes.len()
    } else {
        available
    };
    let ghost start = flow.sample@;
    let mut i: usize = 0;
    while i < copied_len
        invariant
            i <= copied_len,
            copied_len <= sample_bytes@.len(),
            start.len() + copied_len <= FLOW_CLASSIFY_BYTES,
            flow.sample@ =~= start + sample_bytes@.take(i as int),
            flow.packets_seen == before.packets_seen + 1,
            flow.status == ClassifyStatus::Collecting,
            flow.last_seen == now,
        decreases copied_len - i,
    {
        flow.sample.push(sample_bytes[i]);
        i = i + 1;
        assert(sample_bytes@.take(i as int) =~= sample_bytes@.take(i - 1).push(sample_bytes@[i - 1]));
    }
    // Tx classify task if ready.
    let mut task: Option<ClassifyTask> = None;
    if flow.sample.len() >= FLOW_CLASSIFY_BYTES || (flow.packets_seen >= MIN_PACKETS_FOR_CLASSIFY
        && flow.sample.len() != 0) {
        task = Some(ClassifyTask { id: conntrack, sample: flow.sample.clone() });
        flow.status = ClassifyStatus::Classifying;
    }
    let status = flow.status;
    assert(flow@ == spec_flow_after_packet(before, sample_bytes@, now));
    flow_map.flows.insert(conntrack, flow);
    assert(flow_map@ =~= spec_table_after_packet(old(flow_map)@, conntrack, sample_bytes@, now));
    (status, task)
}

/// Apply one classification result: a tracked flow is pinned to the mark of its traffic
/// class, or to the default mark when classification failed; results for flows no longer
/// tracked are dropped.
pub fn consume_result(flow_map: &mut FlowTable, result: ClassifyResult, now: u64)
    requires
        old(flow_map).wf(),
    ensures
        final(flow_map).wf(),
        final(flow_map)@ == spec_table_after_result(old(flow_map)@, result.id, result.classification, now),
{
    let id = result.id;
    let removed = flow_map.flows.remove(&id);
    match removed {
        Some(mut flow) => {
            let mark = match result.classification {
                Ok(v) => mark_for_traffic_type(v),
                Err(_) => DEFAULT_MARK,
            };
            flow.status = ClassifyStatus::Pinned(mark);
            flow.last_seen = now;
            flow_map.flows.insert(id, flow);
            assert(flow_map@ =~= spec_table_after_result(old(flow_map)@, id, result.classification, now));
        },
        None => {
            assert(flow_map@ =~= old(flow_map)@);
        },
    }
}

/// Remove the flows not seen within `FLOW_PRUNE_INTERVAL_NS` of `now`, and return the IDs
/// of the flows removed.
pub fn prune_flows(flow_map: &mut FlowTable, now: u64) -> (removed: Vec<ConntrackId>)
    requires
        old(flow_map).wf(),
    ensures
        final(flow_map).wf(),
        final(flow_map)@ == spec_table_after_prune(old(flow_map)@, now),
        forall|k: ConntrackId| #[trigger] removed@.contains(k) <==> old(flow_map)@.contains_key(k)
            && !final(flow_map)@.contains_key(k),
{
    let ghost old_map = old(flow_map).flows@;
    let ghost old_view = old(flow_map)@;
    let mut stale: Vec<ConntrackId> = Vec::new();
    for k in it: flow_map.flows.keys()
        invariant
            flow_map.flows@ == old_map,
            it.seq().unref().to_set() == old_map.dom(),
            forall|j: int| 0 <= j < stale@.len() ==> {
                &&& old_map.contains_key(#[trigger] stale@[j])
                &&& !spec_is_fresh(old_map[stale@[j]]@, now)
            },
            forall|j: int|
                0 <= j < it.index() && !spec_is_fresh(old_map[#[trigger] it.seq().unref()[j]]@, now)
                    ==> stale@.contains(it.seq().unref()[j]),
    {
        assert(it.seq().unref()[it.index()] == *k);
        assert(old_map.dom().contains(*k));
        let ghost old_stale = stale@;
        let flow = flow_map.flows.get(k).unwrap();
        let elapsed = now.saturating_sub(flow.last_seen);
        if elapsed >= FLOW_PRUNE_INTERVAL_NS {
            stale.push(*k);
            assert(stale@[old_stale.len() as int] == *k);
        }
        assert(forall|j: int| 0 <= j < old_stale.len() ==> stale@[j] == old_stale[j]);
        assert(forall|x: ConntrackId| old_stale.contains(x) ==> stale@.contains(x));
    }
    assert forall|key: ConntrackId|
        old_map.contains_key(key) && !spec_is_fresh(old_map[key]@, now) implies #[trigger] stale@.contains(key) by {
    }
    let mut i: usize = 0;
    while i < stale.len()
        invariant
            i <= stale@.len(),
            forall|k: ConntrackId| #[trigger] flow_map.flows@.contains_key(k) <==> old_map.contains_key(k)
                && !stale@.take(i as int).contains(k),
            forall|k: ConntrackId| #[trigger] flow_map.flows@.contains_key(k) ==> flow_map.flows@[k] == old_map[k],
        decreases stale@.len() - i,
    {
        let ghost before = flow_map.flows@;
        let ghost x = stale@[i as int];
        flow_map.flows.remove(&stale[i]);
        assert(flow_map.flows@ == before.remove(x));
        assert forall|k: ConntrackId| #[trigger] stale@.take(i + 1).contains(k) <==> (stale@.take(
            i as int,
        ).contains(k) || k == x) by {
            if stale@.take(i as int).contains(k) {
                let j = choose|j: int| 0 <= j < i && #[trigger] stale@.take(i as int)[j] == k;
                assert(stale@.take(i + 1)[j] == k);
            }
            if k == x {
                assert(stale@.take(i + 1)[i as int] == x);
            }
            if stale@.take(i + 1).contains(k) {
                let j = choose|j: int| 0 <= j < i + 1 && #[trigger] stale@.take(i + 1)[j] == k;
                if j < i {
                    assert(stale@.take(i as int)[j] == k);
                }
            }
        }
        i = i + 1;
    }
    assert(stale@.take(stale@.len() as int) =~= stale@);
    assert(flow_map@ =~= spec_table_after_prune(old_view, now));
    assert forall|k: ConntrackId| #[trigger] stale@.contains(k) implies old_view.contains_key(k)
        && !flow_map@.contains_key(k) by {
        let j = choose|j: int| 0 <= j < stale@.len() && stale@[j] == k;
        assert(old_map.contains_key(stale@[j]));
    }
    stale
}

/// Packet and byte counters of the ingress thread, since start and in the current
/// metrics interval; "unoptimised" packets are those forwarded while their flow was being
/// classified.
pub struct IngressCounters {
    pub packet_total: usize,
    pub byte_total: usize,
    pub packet_interval: usize,
    pub byte_interval: usize,
    pub unoptimised_packet_total: usize,
    pub unoptimised_byte_total: usize,
    pub unoptimised_packet_interval: usize,
    pub unoptimised_byte_interval: usize,
}

/// The counters after one more packet of `len` bytes.
pub open spec fn spec_counters_after_packet(c: IngressCounters, len: usize, unoptimised: bool) -> IngressCounters {
    IngressCounters {
        packet_total: (c.packet_total + 1) as usize,
        byte_total: (c.byte_total + len) as usize,
        packet_interval: (c.packet_interval + 1) as usize,
        byte_interval: (c.byte_interval + len) as usize,
        unoptimised_packet_total: if unoptimised {
            (c.unoptimised_packet_total + 1) as usize
        } else {
            c.unoptimised_packet_total
        },
        unoptimised_byte_total: if unoptimised {
            (c.unoptimised_byte_total + len) as usize
        } else {
            c.unoptimised_byte_total
        },
        unoptimised_packet_interval: if unoptimised {
            (c.unoptimised_packet_interval + 1) as usize
        } else {
            c.unoptimised_packet_interval
        },
        unoptimised_byte_interval: if unoptimised {
            (c.unoptimised_byte_interval + len) as usize
        } else {
            c.unoptimised_byte_interval
        },
    }
}

/// The counters with the current interval closed: interval counts back to zero, totals kept.
pub open spec fn spec_counters_interval_reset(c: IngressCounters) -> IngressCounters {
    IngressCounters {
        packet_interval: 0,
        byte_interval: 0,
        unoptimised_packet_interval: 0,
        unoptimised_byte_interval: 0,
        ..c
    }
}

impl IngressCounters {
    /// Interval counts never exceed totals, and unoptimised counts never exceed all counts.
    pub open spec fn wf(&self) -> bool {
        &&& self.packet_interval <= self.packet_total
        &&& self.byte_interval <= self.byte_total
        &&& self.unoptimised_packet_total <= self.packet_total
        &&& self.unoptimised_byte_total <= self.byte_total
        &&& self.unoptimised_packet_interval <= self.unoptimised_packet_total
        &&& self.unoptimised_packet_interval <= self.packet_interval
        &&& self.unoptimised_byte_interval <= self.unoptimised_byte_total
        &&& self.unoptimised_byte_interval <= self.byte_interval
    }

    /// Whether a packet of `len` bytes can be counted without overflow.
    pub open spec fn spec_can_record(&self, len: usize) -> bool {
        &&& self.packet_total < usize::MAX
        &&& self.byte_total + len <= usize::MAX
    }

    /// All counters at zero.
    pub fn new() -> (c: IngressCounters)
        ensures
            c.wf(),
            c.packet_total == 0 && c.byte_total == 0 && c.packet_interval == 0 && c.byte_interval == 0,
            c.unoptimised_packet_total == 0 && c.unoptimised_byte_total == 0,
            c.unoptimised_packet_interval == 0 && c.unoptimised_byte_interval == 0,
    {
        IngressCounters {
            packet_total: 0,
            byte_total: 0,
            packet_interval: 0,
            byte_interval: 0,
            unoptimised_packet_total: 0,
            unoptimised_byte_total: 0,
            unoptimised_packet_interval: 0,
            unoptimised_byte_interval: 0,
        }
    }

    /// Whether a packet of `len` bytes can be counted without overflow.
    pub fn can_record(&self, len: usize) -> (ok: bool)
        ensures
            ok == self.spec_can_record(len),
    {
        self.packet_total < usize::MAX && len <= usize::MAX - self.byte_total
    }

    /// Count one packet of `len` bytes.
    pub fn record(&mut self, len: usize, unoptimised: bool)
        requires
            old(self).wf(),
            old(self).spec_can_record(len),
        ensures
            final(self).wf(),
            *final(self) == spec_counters_after_packet(*old(self), len, unoptimised),
    {
        self.packet_total = self.packet_total + 1;
        self.packet_interval = self.packet_interval + 1;
        self.byte_total = self.byte_total + len;
        self.byte_interval = self.byte_interval + len;
        if unoptimised {
            // Packets that make it here are being forwarded before they can be classified.
            self.unoptimised_packet_total = self.unoptimised_packet_total + 1;
            self.unoptimised_packet_interval = self.unoptimised_packet_interval + 1;
            self.unoptimised_byte_total = self.unoptimised_byte_total + len;
            self.unoptimised_byte_interval = self.unoptimised_byte_interval + len;
        }
    }

    /// Close the current interval.
    pub fn reset_interval(&mut self)
        requires
            old(self).wf(),
        ensures
            final(self).wf(),
            *final(self) == spec_counters_interval_reset(*old(self)),
    {
        self.packet_interval = 0;
        self.byte_interval = 0;
        self.unoptimised_packet_interval = 0;
        self.unoptimised_byte_interval = 0;
    }
}

/// How the ingress thread handles one packet.
pub struct PacketVerdict {
    /// The flow's status after the packet.
    pub status: ClassifyStatus,
    /// The firewall mark to let the packet through with; `None` when the packet is held
    /// back until its flow is classified.
    pub mark: Option<FwMark>,
    /// The classification job to enqueue, when the packet completed its flow's sample.
    pub task: Option<ClassifyTask>,
    /// Whether stale flows were pruned while handling the packet.
    pub pruned: bool,
    /// The flows whose held packets to let through, with the mark to set on them: in
    /// blocking mode, the flows forgotten by pruning, let through unclassified.
    pub release: Vec<(ConntrackId, FwMark)>,
}

/// The decisions of the ingress loop: flow tracking, forwarding marks, pruning and metrics.
/// Receiving packets and results and sending verdicts, jobs and metrics happen around it.
pub struct IngressState {
    pub route_mode: RouteMode,
    pub flows: FlowTable,
    pub counters: IngressCounters,
    /// When metrics were last pushed, in nanoseconds of a monotonic clock.
    pub last_metric_push: u64,
    /// When flows were last pruned, in nanoseconds of a monotonic clock.
    pub last_pruned: u64,
}

impl IngressState {
    /// The flow table and counters are well formed, and no flow has counted more packets
    /// than the ingress thread has seen.
    pub open spec fn wf(&self) -> bool {
        &&& self.flows.wf()
        &&& self.counters.wf()
        &&& forall|k: ConntrackId| #[trigger] self.flows@.contains_key(k) ==> self.flows@[k].packets_seen
            <= self.counters.packet_total
    }

    /// The state at start-up, at time `now`.
    pub fn new(route_mode: RouteMode, now: u64) -> (state: IngressState)
        ensures
            state.wf(),
            state.route_mode == route_mode,
            state.flows@ == Map::<ConntrackId, FlowView>::empty(),
            state.counters.wf(),
            state.counters.packet_total == 0 && state.counters.byte_total == 0,
            state.counters.unoptimised_packet_total == 0 && state.counters.unoptimised_byte_total == 0,
            state.last_metric_push == now,
            state.last_pruned == now,
    {
        IngressState {
            route_mode,
            flows: FlowTable::new(),
            counters: IngressCounters::new(),
            last_metric_push: now,
            last_pruned: now,
        }
    }

    /// Whether a packet of `len` bytes can be handled without a counter overflowing.
    pub fn can_accept(&self, len: usize) -> (ok: bool)
        ensures
            ok == self.counters.spec_can_record(len),
    {
        self.counters.can_record(len)
    }

    /// Handle one packet of flow `conntrack` arriving at `now`: track the flow, decide its
    /// mark, prune stale flows when due, and count the packet.
    pub fn on_packet(&mut self, conntrack: ConntrackId, packet: &[u8], now: u64) -> (verdict: PacketVerdict)
        requires
            old(self).wf(),
            old(self).counters.spec_can_record(packet@.len() as usize),
        ensures
            final(self).wf(),
            final(self).route_mode == old(self).route_mode,
            final(self).last_metric_push == old(self).last_metric_push,
            ({
                let after = spec_table_after_packet(old(self).flows@, conntrack, packet@, now);
                let task = spec_task_for_packet(spec_flow_before(old(self).flows@, conntrack, now), packet@, now);
                &&& verdict.status == after[conntrack].status
                &&& verdict.mark == spec_packet_mark(spec_forwarding_action(verdict.status, old(self).route_mode))
                &&& verdict.task is Some == task is Some
                &&& (verdict.task matches Some(t) ==> t.id == conntrack && Some(t.sample@) == task)
                &&& if spec_elapsed(old(self).last_pruned, now) > FLOW_PRUNE_INTERVAL_NS {
                    &&& final(self).flows@ == spec_table_after_prune(after, now)
                    &&& final(self).last_pruned == now
                    &&& verdict.pruned
                } else {
                    &&& final(self).flows@ == after
                    &&& final(self).last_pruned == old(self).last_pruned
                    &&& !verdict.pruned
                }
                &&& forall|k: ConntrackId, m: FwMark| #[trigger] verdict.release@.contains((k, m)) <==> {
                    &&& old(self).route_mode == RouteMode::Blocking
                    &&& m == DEFAULT_MARK
                    &&& after.contains_key(k)
                    &&& !final(self).flows@.contains_key(k)
                }
            }),
            final(self).counters == spec_counters_after_packet(
                old(self).counters,
                packet@.len() as usize,
                verdict.status == ClassifyStatus::Classifying,
            ),
            verdict.mark matches Some(m) ==> spec_valid_mark(m),
    {
        // Tx classify task.
        let (status, task) = handle_classification(&mut self.flows, conntrack, packet, now);
        // Tx packet.
        let mark = match forwarding_action(&status, self.route_mode) {
            ForwardingAction::Accept { mark } => match mark {
                Some(mark) => Some(mark),
                None => Some(DEFAULT_MARK),
            },
            ForwardingAction::Hold => None,
        };
        // Prune old connections.
        let ghost after = self.flows@;
        let mut pruned = false;
        let mut release: Vec<(ConntrackId, FwMark)> = Vec::new();
        if now.saturating_sub(self.last_pruned) > FLOW_PRUNE_INTERVAL_NS {
            let removed = prune_flows(&mut self.flows, now);
            self.last_pruned = now;
            pruned = true;
            if self.route_mode == RouteMode::Blocking {
                let mut i: usize = 0;
                while i < removed.len()
                    invariant
                        i <= removed@.len(),
                        release@ == removed@.take(i as int).map_values(|k: ConntrackId| (k, DEFAULT_MARK)),
                    decreases removed@.len() - i,
                {
                    release.push((removed[i], DEFAULT_MARK));
                    assert(removed@.take(i + 1).map_values(|k: ConntrackId| (k, DEFAULT_MARK)) =~= removed@.take(
                        i as int,
                    ).map_values(|k: ConntrackId| (k, DEFAULT_MARK)).push((removed@[i as int], DEFAULT_MARK)));
                    i = i + 1;
                }
                assert(removed@.take(removed@.len() as int) =~= removed@);
                assert forall|k: ConntrackId, m: FwMark| #[trigger] release@.contains((k, m)) <==> (m == DEFAULT_MARK
                    && removed@.contains(k)) by {
                    if release@.contains((k, m)) {
                        let j = choose|j: int| 0 <= j < release@.len() && release@[j] == (k, m);
                        assert(removed@[j] == k);
                    }
                    if m == DEFAULT_MARK && removed@.contains(k) {
                        let j = choose|j: int| 0 <= j < removed@.len() && removed@[j] == k;
                        assert(release@[j] == (k, m));
                    }
                }
            }
        }
        // Accumulate metrics.
        self.counters.record(packet.len(), status == ClassifyStatus::Classifying);
        assert forall|k: ConntrackId| #[trigger] self.flows@.contains_key(k) implies self.flows@[k].packets_seen
            <= self.counters.packet_total by {}
        PacketVerdict { status, mark, task, pruned, release }
    }

    /// Apply a classification result arriving at `now`. In blocking mode, returns the mark
    /// to release the flow's held packets with when the result pinned a tracked flow.
    pub fn on_result(&mut self, result: ClassifyResult, now: u64) -> (release: Option<FwMark>)
        requires
            old(self).wf(),
        ensures
            release == if old(self).route_mode == RouteMode::Blocking && old(self).flows@.contains_key(result.id) {
                Some(spec_result_mark(result.classification))
            } else {
                None
            },
            final(self).wf(),
            final(self).flows@ == spec_table_after_result(old(self).flows@, result.id, result.classification, now),
            final(self).route_mode == old(self).route_mode,
            final(self).counters == old(self).counters,
            final(self).last_metric_push == old(self).last_metric_push,
            final(self).last_pruned == old(self).last_pruned,
    {
        let known = self.flows.get(result.id).is_some();
        let release = if known && self.route_mode == RouteMode::Blocking {
            match &result.classification {
                Ok(v) => Some(mark_for_traffic_type(*v)),
                Err(_) => Some(DEFAULT_MARK),
            }
        } else {
            None
        };
        consume_result(&mut self.flows, result, now);
        release
    }

    /// The metrics to push at `now`, when more than `LOG_INTERVAL_NS` passed since the last
    /// push: the counters, the flow count and the given classify backlog, after which a new
    /// interval starts. `None`, with nothing changed, otherwise.
    pub fn poll_metrics(&mut self, now: u64, timestamp_unix_ns: u64, classify_backpressure: usize) -> (metrics: Option<IngressMetrics>)
        requires
            old(self).wf(),
        ensures
            final(self).wf(),
            final(self).route_mode == old(self).route_mode,
            final(self).flows@ == old(self).flows@,
            final(self).last_pruned == old(self).last_pruned,
            metrics is Some <==> spec_elapsed(old(self).last_metric_push, now) > LOG_INTERVAL_NS,
            metrics is None ==> final(self).counters == old(self).counters
                && final(self).last_metric_push == old(self).last_metric_push,
            metrics matches Some(m) ==> {
                let c = old(self).counters;
                &&& m.timestamp_unix_ns == timestamp_unix_ns
                &&& m.interval_ns == spec_elapsed(old(self).last_metric_push, now)
                &&& m.flow_count == old(self).flows@.len()
                &&& m.classify_backpressure == classify_backpressure
                &&& m.packet_total == c.packet_total && m.byte_total == c.byte_total
                &&& m.packet_interval == c.packet_interval && m.byte_interval == c.byte_interval
                &&& m.unoptimised_packet_total == c.unoptimised_packet_total
                &&& m.unoptimised_byte_total == c.unoptimised_byte_total
                &&& m.unoptimised_packet_interval == c.unoptimised_packet_interval
                &&& m.unoptimised_byte_interval == c.unoptimised_byte_interval
                &&& final(self).counters == spec_counters_interval_reset(c)
                &&& final(self).last_metric_push == now
            },
    {
        let interval_ns = now.saturating_sub(self.last_metric_push);
        if interval_ns <= LOG_INTERVAL_NS {
            return None;
        }
        let metrics = IngressMetrics {
            timestamp_unix_ns,
            interval_ns,
            flow_count: self.flows.len(),
            classify_backpressure,
            packet_total: self.counters.packet_total,
            byte_total: self.counters.byte_total,
            packet_interval: self.counters.packet_interval,
            byte_interval: self.counters.byte_interval,
            unoptimised_packet_total: self.counters.unoptimised_packet_total,
            unoptimised_byte_total: self.counters.unoptimised_byte_total,
            unoptimised_packet_interval: self.counters.unoptimised_packet_interval,
            unoptimised_byte_interval: self.counters.unoptimised_byte_interval,
        };
        // Reset metrics interval.
        self.counters.reset_interval();
        self.last_metric_push = now;
        Some(metrics)
    }
}

/// The progress order of classification statuses.
pub open spec fn spec_status_rank(status: ClassifyStatus) -> nat {
    match status {
        ClassifyStatus::Collecting => 0,
        ClassifyStatus::Classifying => 1,
        ClassifyStatus::Pinned(_) => 2,
    }
}

/// A packet never moves a flow back, and a flow past collecting keeps its status and sample.
pub proof fn lemma_packet_never_regresses(flow: FlowView, bytes: Seq<u8>, now: u64)
    ensures
        spec_status_rank(spec_flow_after_packet(flow, bytes, now).status) >= spec_status_rank(flow.status),
        flow.status != ClassifyStatus::Collecting ==> {
            &&& spec_flow_after_packet(flow, bytes, now).status == flow.status
            &&& spec_flow_after_packet(flow, bytes, now).sample == flow.sample
            &&& spec_task_for_packet(flow, bytes, now) is None
        },
{
}

/// A flow's sample is the start of the bytes it has collected, up to the model input size.
pub proof fn lemma_sample_is_window_prefix(flow: FlowView, bytes: Seq<u8>, now: u64)
    requires
        flow.status == ClassifyStatus::Collecting,
        flow.sample.len() <= FLOW_CLASSIFY_BYTES,
    ensures
        ({
            let all = flow.sample + bytes;
            let len = if all.len() < FLOW_CLASSIFY_BYTES {
                all.len()
            } else {
                FLOW_CLASSIFY_BYTES as nat
            };
            spec_flow_after_packet(flow, bytes, now).sample == all.take(len as int)
        }),
{
    let all = flow.sample + bytes;
    let len = if all.len() < FLOW_CLASSIFY_BYTES {
        all.len()
    } else {
        FLOW_CLASSIFY_BYTES as nat
    };
    assert(spec_flow_after_packet(flow, bytes, now).sample =~= all.take(len as int));
}

/// A collecting flow is sent for classification as soon as its sample is full, or once it
/// has seen `MIN_PACKETS_FOR_CLASSIFY` packets and holds some bytes; the task carries the
/// sample.
pub proof fn lemma_ready_flow_is_classified(flow: FlowView, bytes: Seq<u8>, now: u64)
    requires
        flow.status == ClassifyStatus::Collecting,
        spec_ready_to_classify(
            spec_flow_after_packet(flow, bytes, now).sample.len(),
            flow.packets_seen + 1,
        ),
    ensures
        spec_flow_after_packet(flow, bytes, now).status == ClassifyStatus::Classifying,
        spec_task_for_packet(flow, bytes, now) == Some(spec_flow_after_packet(flow, bytes, now).sample),
{
}

/// A flow is sent for classification at most once: after the packet that sends it, no
/// later packet sends another task.
pub proof fn lemma_single_classification_task(flow: FlowView, first: Seq<u8>, now: u64, later: Seq<u8>, then: u64)
    requires
        spec_task_for_packet(flow, first, now) is Some,
    ensures
        spec_task_for_packet(spec_flow_after_packet(flow, first, now), later, then) is None,
{
}

/// A classification result for a flow no longer tracked changes nothing, and a result for
/// a tracked flow changes only that flow.
pub proof fn lemma_result_touches_only_its_flow(
    flows: Map<ConntrackId, FlowView>,
    id: ConntrackId,
    classification: Result<TrafficType, String>,
    now: u64,
)
    ensures
        !flows.contains_key(id) ==> spec_table_after_result(flows, id, classification, now) == flows,
        spec_table_after_result(flows, id, classification, now).remove(id) == flows.remove(id),
{
    assert(spec_table_after_result(flows, id, classification, now).remove(id) =~= flows.remove(id));
}

/// Once a result pins a tracked flow, its later packets keep that pin and, in either
/// routing mode, are forwarded with the mark of the result; a failed classification gives the
/// default mark.
pub proof fn lemma_pinned_flow_forwarded_with_result_mark(
    flows: Map<ConntrackId, FlowView>,
    id: ConntrackId,
    classification: Result<TrafficType, String>,
    pinned_at: u64,
    bytes: Seq<u8>,
    now: u64,
)
    requires
        flows.contains_key(id),
    ensures
        ({
            let pinned = spec_table_after_result(flows, id, classification, pinned_at);
            let after = spec_table_after_packet(pinned, id, bytes, now);
            &&& after[id].status == ClassifyStatus::Pinned(spec_result_mark(classification))
            &&& spec_packet_mark(spec_forwarding_action(after[id].status, RouteMode::NonBlocking))
                == Some(spec_result_mark(classification))
            &&& spec_packet_mark(spec_forwarding_action(after[id].status, RouteMode::Blocking))
                == Some(spec_result_mark(classification))
            &&& (classification is Err ==> spec_result_mark(classification) == DEFAULT_MARK)
        }),
{
}

/// Packets let through always carry one of the three marks, from any well-formed table.
pub proof fn lemma_forwarded_mark_is_valid(
    flows: Map<ConntrackId, FlowView>,
    conntrack: ConntrackId,
    bytes: Seq<u8>,
    now: u64,
    route_mode: RouteMode,
)
    requires
        spec_table_wf(flows),
    ensures
        spec_packet_mark(
            spec_forwarding_action(spec_table_after_packet(flows, conntrack, bytes, now)[conntrack].status, route_mode),
        ) matches Some(m) ==> spec_valid_mark(m),
{
    if flows.contains_key(conntrack) {
        assert(flows[conntrack].status matches ClassifyStatus::Pinned(m) ==> spec_valid_mark(m));
    }
}

/// Pruning keeps exactly the flows seen within the prune interval, unchanged; in
/// particular a flow seen at `now` survives a prune at `now`.
pub proof fn lemma_prune_keeps_fresh_flows(flows: Map<ConntrackId, FlowView>, now: u64, k: ConntrackId)
    ensures
        spec_table_after_prune(flows, now).contains_key(k) <==> flows.contains_key(k) && spec_is_fresh(
            flows[k],
            now,
        ),
        spec_table_after_prune(flows, now).contains_key(k) ==> spec_table_after_prune(flows, now)[k]
            == flows[k],
        flows.contains_key(k) && flows[k].last_seen == now ==> spec_table_after_prune(flows, now).contains_key(k),
{
}

/// The route mode setting is read without regard to ASCII case, and an unknown setting
/// falls back to non-blocking.
pub proof fn lemma_route_mode_case_insensitive(a: Seq<u8>, b: Seq<u8>)
    requires
        spec_eq_ignore_ascii_case(a, b),
    ensures
        spec_route_mode(Some(a)) == spec_route_mode(Some(b)),
{
    assert forall|w: Seq<u8>| spec_eq_ignore_ascii_case(a, w) <==> spec_eq_ignore_ascii_case(b, w) by {
        if spec_eq_ignore_ascii_case(a, w) {
            assert forall|i: int| 0 <= i < b.len() implies spec_ascii_lower(#[trigger] b[i]) == spec_ascii_lower(w[i]) by {
                assert(spec_ascii_lower(a[i]) == spec_ascii_lower(b[i]));
            }
        }
        if spec_eq_ignore_ascii_case(b, w) {
            assert forall|i: int| 0 <= i < a.len() implies spec_ascii_lower(#[trigger] a[i]) == spec_ascii_lower(w[i]) by {
                assert(spec_ascii_lower(a[i]) == spec_ascii_lower(b[i]));
            }
        }
    }
}

/// A flow after a run of its packets, all seen at `now`.
pub open spec fn spec_flow_after_packets(flow: FlowView, packets: Seq<Seq<u8>>, now: u64) -> FlowView
    decreases packets.len(),
{
    if packets.len() == 0 {
        flow
    } else {
        spec_flow_after_packet(spec_flow_after_packets(flow, packets.drop_last(), now), packets.last(), now)
    }
}

proof fn lemma_collecting_flow_counts_packets(packets: Seq<Seq<u8>>, now: u64)
    requires
        forall|i: int| 0 <= i < packets.len() ==> #[trigger] packets[i].len() > 0,
    ensures
        ({
            let f = spec_flow_after_packets(spec_new_flow(now), packets, now);
            f.status == ClassifyStatus::Collecting ==> {
                &&& f.packets_seen == packets.len()
                &&& (packets.len() > 0 ==> f.sample.len() > 0)
                &&& f.sample.len() <= FLOW_CLASSIFY_BYTES
            }
        }),
    decreases packets.len(),
{
    if packets.len() > 0 {
        let init = packets.drop_last();
        assert forall|i: int| 0 <= i < init.len() implies #[trigger] init[i].len() > 0 by {
            assert(init[i] == packets[i]);
        }
        lemma_collecting_flow_counts_packets(init, now);
        assert(packets.last().len() > 0);
    }
}

/// A new flow whose packets all carry bytes is sent for classification by its
/// `MIN_PACKETS_FOR_CLASSIFY`-th packet at the latest.
pub proof fn lemma_flow_classified_by_min_packets(packets: Seq<Seq<u8>>, now: u64)
    requires
        packets.len() >= MIN_PACKETS_FOR_CLASSIFY,
        forall|i: int| 0 <= i < packets.len() ==> #[trigger] packets[i].len() > 0,
    ensures
        spec_flow_after_packets(spec_new_flow(now), packets, now).status != ClassifyStatus::Collecting,
{
    let init = packets.drop_last();
    assert forall|i: int| 0 <= i < init.len() implies #[trigger] init[i].len() > 0 by {
        assert(init[i] == packets[i]);
    }
    lemma_collecting_flow_counts_packets(init, now);
    lemma_collecting_flow_counts_packets(packets, now);
    let before = spec_flow_after_packets(spec_new_flow(now), init, now);
    if before.status == ClassifyStatus::Collecting {
        assert(packets.last().len() > 0);
        let after = spec_flow_after_packet(before, packets.last(), now);
        assert(after.packets_seen >= MIN_PACKETS_FOR_CLASSIFY);
    } else {
        lemma_packet_never_regresses(before, packets.last(), now);
    }
}

/// An event that changes the flow table.
pub enum FlowEvent {
    /// A packet of `conntrack`, carrying `bytes`, seen at `now`.
    Packet { conntrack: ConntrackId, bytes: Seq<u8>, now: u64 },
    /// A classification result for `id` consumed at `now`.
    Result { id: ConntrackId, classification: Result<TrafficType, String>, now: u64 },
    /// A prune at `now`.
    Prune { now: u64 },
}

/// The flow table after one event.
pub open spec fn spec_table_after_event(flows: Map<ConntrackId, FlowView>, event: FlowEvent) -> Map<ConntrackId, FlowView> {
    match event {
        FlowEvent::Packet { conntrack, bytes, now } => spec_table_after_packet(flows, conntrack, bytes, now),
        FlowEvent::Result { id, classification, now } => spec_table_after_result(flows, id, classification, now),
        FlowEvent::Prune { now } => spec_table_after_prune(flows, now),
    }
}

/// The flow table after a run of events.
pub open spec fn spec_table_after_events(flows: Map<ConntrackId, FlowView>, events: Seq<FlowEvent>) -> Map<
    ConntrackId,
    FlowView,
>
    decreases events.len(),
{
    if events.len() == 0 {
        flows
    } else {
        spec_table_after_event(spec_table_after_events(flows, events.drop_last()), events.last())
    }
}

/// The mark of the last classification result for flow `c` consumed while `c` was tracked,
/// unless `c` has since been pruned or was never tracked (a packet of an untracked flow
/// starts it afresh); for the starting table, the pin it already has.
pub open spec fn spec_last_result_mark(flows: Map<ConntrackId, FlowView>, events: Seq<FlowEvent>, c: ConntrackId) -> Option<
    FwMark,
>
    decreases events.len(),
{
    if events.len() == 0 {
        if flows.contains_key(c) {
            match flows[c].status {
                ClassifyStatus::Pinned(m) => Some(m),
                _ => None,
            }
        } else {
            None
        }
    } else {
        let init = events.drop_last();
        let before = spec_table_after_events(flows, init);
        let pin = spec_last_result_mark(flows, init, c);
        match events.last() {
            FlowEvent::Packet { conntrack, .. } => if conntrack == c && !before.contains_key(c) {
                None
            } else {
                pin
            },
            FlowEvent::Result { id, classification, .. } => if id == c && before.contains_key(c) {
                Some(spec_result_mark(classification))
            } else {
                pin
            },
            FlowEvent::Prune { now } => if before.contains_key(c) && !spec_is_fresh(before[c], now) {
                None
            } else {
                pin
            },
        }
    }
}

/// Over any run of packets, results and prunes, a tracked flow is pinned exactly to the mark
/// of the last result consumed for it while tracked and not pruned since; its packets are
/// forwarded with that mark, or with the default mark when there is none (non-blocking
/// mode), or held back until there is one (blocking mode).
pub proof fn lemma_flow_mark_follows_last_result(flows: Map<ConntrackId, FlowView>, events: Seq<FlowEvent>, c: ConntrackId)
    ensures
        ({
            let after = spec_table_after_events(flows, events);
            let pin = spec_last_result_mark(flows, events, c);
            &&& !after.contains_key(c) ==> pin is None
            &&& after.contains_key(c) ==> (match pin {
                Some(m) => after[c].status == ClassifyStatus::Pinned(m),
                None => !(after[c].status is Pinned),
            })
            &&& after.contains_key(c) ==> spec_packet_mark(
                spec_forwarding_action(after[c].status, RouteMode::NonBlocking),
            ) == Some(
                match pin {
                    Some(m) => m,
                    None => DEFAULT_MARK,
                },
            )
            &&& after.contains_key(c) ==> spec_packet_mark(
                spec_forwarding_action(after[c].status, RouteMode::Blocking),
            ) == pin
        }),
    decreases events.len(),
{
    if events.len() > 0 {
        lemma_flow_mark_follows_last_result(flows, events.drop_last(), c);
        let before = spec_table_after_events(flows, events.drop_last());
        match events.last() {
            FlowEvent::Packet { conntrack, bytes, now } => {
                if conntrack == c && before.contains_key(c) {
                    lemma_packet_never_regresses(before[c], bytes, now);
                }
            },
            _ => {},
        }
    }
}

/// A pruned flow is forgotten: results for it are then ignored, and its next packet starts
/// it afresh, unpinned, with that packet counted and its bytes as the sample.
pub proof fn lemma_pruned_flow_starts_over(
    flows: Map<ConntrackId, FlowView>,
    now: u64,
    c: ConntrackId,
    classification: Result<TrafficType, String>,
    result_at: u64,
    bytes: Seq<u8>,
    later: u64,
)
    requires
        flows.contains_key(c),
        !spec_is_fresh(flows[c], now),
    ensures
        ({
            let pruned = spec_table_after_prune(flows, now);
            let after = spec_table_after_packet(pruned, c, bytes, later);
            &&& !pruned.contains_key(c)
            &&& spec_table_after_result(pruned, c, classification, result_at) == pruned
            &&& after[c].packets_seen == 1
            &&& after[c].sample == bytes.take(spec_copied_len(0, bytes.len()) as int)
            &&& !(after[c].status is Pinned)
            &&& after[c].last_seen == later
        }),
{
    let pruned = spec_table_after_prune(flows, now);
    assert(spec_new_flow(later).sample + bytes.take(spec_copied_len(0, bytes.len()) as int) =~= bytes.take(
        spec_copied_len(0, bytes.len()) as int,
    ));
}

/// An event that changes the ingress counters.
pub enum CounterEvent {
    /// A packet of `len` bytes; `unoptimised` when its flow was being classified.
    Packet { len: usize, unoptimised: bool },
    /// A metrics push, which closes the interval.
    Push,
}

/// The counters after one event.
pub open spec fn spec_counters_after_event(c: IngressCounters, event: CounterEvent) -> IngressCounters {
    match event {
        CounterEvent::Packet { len, unoptimised } => spec_counters_after_packet(c, len, unoptimised),
        CounterEvent::Push => spec_counters_interval_reset(c),
    }
}

/// The counters after a run of events.
pub open spec fn spec_counters_after_events(c: IngressCounters, events: Seq<CounterEvent>) -> IngressCounters
    decreases events.len(),
{
    if events.len() == 0 {
        c
    } else {
        spec_counters_after_event(spec_counters_after_events(c, events.drop_last()), events.last())
    }
}

/// Packets, bytes, unoptimised packets and unoptimised bytes over a run of events.
pub open spec fn spec_tally(events: Seq<CounterEvent>) -> (nat, nat, nat, nat)
    decreases events.len(),
{
    if events.len() == 0 {
        (0, 0, 0, 0)
    } else {
        let t = spec_tally(events.drop_last());
        match events.last() {
            CounterEvent::Packet { len, unoptimised } => (
                t.0 + 1,
                t.1 + len as nat,
                if unoptimised {
                    t.2 + 1
                } else {
                    t.2
                },
                if unoptimised {
                    t.3 + len as nat
                } else {
                    t.3
                },
            ),
            CounterEvent::Push => t,
        }
    }
}

/// The events after the last push.
pub open spec fn spec_since_last_push(events: Seq<CounterEvent>) -> Seq<CounterEvent>
    decreases events.len(),
{
    if events.len() == 0 {
        events
    } else {
        match events.last() {
            CounterEvent::Push => Seq::empty(),
            CounterEvent::Packet { .. } => spec_since_last_push(events.drop_last()).push(events.last()),
        }
    }
}

/// Whether a run of events holds no push.
pub open spec fn spec_no_push(events: Seq<CounterEvent>) -> bool {
    forall|i: int| 0 <= i < events.len() ==> #[trigger] events[i] is Packet
}

/// Counters that are all zero, as at start-up.
pub open spec fn spec_counters_zero(c: IngressCounters) -> bool {
    &&& c.packet_total == 0 && c.byte_total == 0 && c.packet_interval == 0 && c.byte_interval == 0
    &&& c.unoptimised_packet_total == 0 && c.unoptimised_byte_total == 0
    &&& c.unoptimised_packet_interval == 0 && c.unoptimised_byte_interval == 0
}

proof fn lemma_tally_since_bounded(events: Seq<CounterEvent>)
    ensures
        spec_tally(spec_since_last_push(events)).0 <= spec_tally(events).0,
        spec_tally(spec_since_last_push(events)).1 <= spec_tally(events).1,
        spec_tally(spec_since_last_push(events)).2 <= spec_tally(events).2,
        spec_tally(spec_since_last_push(events)).3 <= spec_tally(events).3,
    decreases events.len(),
{
    if events.len() > 0 {
        lemma_tally_since_bounded(events.drop_last());
        let since = spec_since_last_push(events);
        if events.last() is Packet {
            assert(since.drop_last() =~= spec_since_last_push(events.drop_last()));
        } else {
            assert(since.len() == 0);
        }
    }
}

/// Counted from start-up, the totals are the sums over every packet handled, and the
/// interval counts are the sums over the packets handled since the last push (machine
/// limits aside: the sums must fit a `usize`).
pub proof fn lemma_counters_are_sums(c: IngressCounters, events: Seq<CounterEvent>)
    requires
        spec_counters_zero(c),
        spec_tally(events).0 <= usize::MAX,
        spec_tally(events).1 <= usize::MAX,
    ensures
        ({
            let after = spec_counters_after_events(c, events);
            let all = spec_tally(events);
            let recent = spec_tally(spec_since_last_push(events));
            &&& after.packet_total == all.0 && after.byte_total == all.1
            &&& after.unoptimised_packet_total == all.2 && after.unoptimised_byte_total == all.3
            &&& after.packet_interval == recent.0 && after.byte_interval == recent.1
            &&& after.unoptimised_packet_interval == recent.2 && after.unoptimised_byte_interval == recent.3
            &&& after.unoptimised_packet_total <= after.packet_total
        }),
    decreases events.len(),
{
    if events.len() > 0 {
        let init = events.drop_last();
        assert(spec_tally(init).0 <= spec_tally(events).0 && spec_tally(init).1 <= spec_tally(events).1);
        assert(spec_tally(init).2 <= spec_tally(init).0) by {
            lemma_unoptimised_within(init);
        }
        assert(spec_tally(init).3 <= spec_tally(init).1) by {
            lemma_unoptimised_within(init);
        }
        lemma_counters_are_sums(c, init);
        lemma_tally_since_bounded(init);
        let since = spec_since_last_push(events);
        if events.last() is Packet {
            assert(since.drop_last() =~= spec_since_last_push(init));
        } else {
            assert(since.len() == 0);
        }
    }
}

proof fn lemma_unoptimised_within(events: Seq<CounterEvent>)
    ensures
        spec_tally(events).2 <= spec_tally(events).0,
        spec_tally(events).3 <= spec_tally(events).1,
    decreases events.len(),
{
    if events.len() > 0 {
        lemma_unoptimised_within(events.drop_last());
    }
}

/// Between two consecutive pushes the totals grow by exactly the counts of the later
/// interval: what follows a push, up to the next one, is that interval, and tallies add up
/// over it.
pub proof fn lemma_push_totals_accumulate(before: Seq<CounterEvent>, interval: Seq<CounterEvent>)
    requires
        spec_no_push(interval),
    ensures
        spec_since_last_push(before.push(CounterEvent::Push) + interval) == interval,
        ({
            let all = spec_tally(before.push(CounterEvent::Push) + interval);
            let earlier = spec_tally(before);
            let recent = spec_tally(interval);
            &&& all.0 == earlier.0 + recent.0 && all.1 == earlier.1 + recent.1
            &&& all.2 == earlier.2 + recent.2 && all.3 == earlier.3 + recent.3
        }),
    decreases interval.len(),
{
    let pushed = before.push(CounterEvent::Push);
    if interval.len() == 0 {
        assert(pushed + interval =~= pushed);
        assert(pushed.drop_last() =~= before);
    } else {
        let init = interval.drop_last();
        assert forall|i: int| 0 <= i < init.len() implies #[trigger] init[i] is Packet by {
            assert(init[i] == interval[i]);
        }
        lemma_push_totals_accumulate(before, init);
        assert((pushed + interval).drop_last() =~= pushed + init);
        assert((pushed + interval).last() == interval.last());
        assert(interval.last() is Packet);
        assert(init.push(interval.last()) =~= interval);
    }
}

/// A packet either leaves a flow's status as it was or moves it from collecting to
/// classifying, and keeps a well-formed flow well formed; a flow seen for the first time
/// starts out collecting and well formed.
pub proof fn lemma_packet_status_transition(flow: FlowView, bytes: Seq<u8>, now: u64)
    requires
        spec_flow_wf(flow),
    ensures
        ({
            let after = spec_flow_after_packet(flow, bytes, now);
            &&& after.status == flow.status || (flow.status == ClassifyStatus::Collecting && after.status
                == ClassifyStatus::Classifying)
            &&& spec_flow_wf(after)
        }),
        spec_new_flow(now).status == ClassifyStatus::Collecting,
        spec_flow_wf(spec_new_flow(now)),
{
}

} // verus!
