use crate::classification::model::{spec_display_name, TrafficType};
use crate::server::text::{append_decimal, spec_decimal};
use time::format_description::well_known::Rfc3339;
use time::OffsetDateTime;
use vstd::string::StringExecFns;
use crate::server::route::{spec_elapsed, ConntrackId};
use vstd::prelude::*;

verus! {

/// Represents metrics to be collected from the ingress thread.
#[derive(Clone, Copy, Debug, PartialEq, Eq, Structural)]
pub struct IngressMetrics {
    /// Time of report, in nanoseconds since the Unix epoch.
    pub timestamp_unix_ns: u64,
    /// Length of the sampling interval, in nanoseconds.
    pub interval_ns: u64,
    /// Number of tracked flows.
    pub flow_count: usize,
    /// Number of classify tasks waiting to be done.
    pub classify_backpressure: usize,
    pub packet_total: usize,
    pub byte_total: usize,
    pub packet_interval: usize,
    pub byte_interval: usize,
    pub unoptimised_packet_total: usize,
    pub unoptimised_byte_total: usize,
    pub unoptimised_packet_interval: usize,
    pub unoptimised_byte_interval: usize,
}

/// Represents metrics to be collected from each classify thread.
pub struct ClassifyMetrics {
    /// Time of report, in nanoseconds since the Unix epoch.
    pub timestamp_unix_ns: u64,
    /// Worker thread name.
    pub thread_name: String,
    pub conntrack_id: ConntrackId,
    pub traffic_type: TrafficType,
}

/// The floating-point figures of the summary line, each written with two decimals: the
/// packet and megabit rates over the interval, the percentage of the interval's packets
/// forwarded before classification (0 with no packets) and their rate, and the gigabits
/// since start. They are computed and formatted where floating point is available.
pub struct SummaryFigures {
    pub packet_rate: String,
    pub megabit_rate: String,
    pub unoptimised_percent: String,
    pub unoptimised_packet_rate: String,
    pub gigabit_total: String,
}

/// The summary line the monitor logs for a set of ingress metrics and its figures.
pub open spec fn spec_ingress_summary_line(m: IngressMetrics, f: SummaryFigures) -> Seq<char> {
    "Current: "@ + f.packet_rate@ + "p/s @ "@ + f.megabit_rate@ + "Mb/s, Unoptimised "@
        + f.unoptimised_percent@ + "% @ "@ + f.unoptimised_packet_rate@ + "p/s, Jobs "@ + spec_decimal(
        m.classify_backpressure as nat,
    ) + ", Flows "@ + spec_decimal(m.flow_count as nat) + ", Total "@ + spec_decimal(
        m.packet_total as nat,
    ) + " packets @ "@ + f.gigabit_total@ + "Gb"@
}

/// The summary the monitor logs for a set of ingress metrics: the given rate figures, then
/// waiting jobs, tracked flows and total packets, then the given gigabit figure. `None` for
/// an empty interval, which is not logged.
pub fn log_ingress_summary(m: &IngressMetrics, figures: &SummaryFigures) -> (line: Option<String>)
    ensures
        line is None <==> m.interval_ns == 0,
        line matches Some(l) ==> l@ == spec_ingress_summary_line(*m, *figures),
{
    if m.interval_ns == 0 {
        return None;
    }
    let mut line = String::new();
    line.append("Current: ");
    line.append(figures.packet_rate.as_str());
    line.append("p/s @ ");
    line.append(figures.megabit_rate.as_str());
    line.append("Mb/s, Unoptimised ");
    line.append(figures.unoptimised_percent.as_str());
    line.append("% @ ");
    line.append(figures.unoptimised_packet_rate.as_str());
    line.append("p/s, Jobs ");
    append_decimal(&mut line, m.classify_backpressure as u128);
    line.append(", Flows ");
    append_decimal(&mut line, m.flow_count as u128);
    line.append(", Total ");
    append_decimal(&mut line, m.packet_total as u128);
    line.append(" packets @ ");
    line.append(figures.gigabit_total.as_str());
    line.append("Gb");
    assert(line@ =~= spec_ingress_summary_line(*m, *figures));
    Some(line)
}

/// The UTC date and time of a Unix timestamp in nanoseconds, in RFC 3339 form, as the
/// `time` crate writes it.
pub uninterp spec fn rfc3339_text(unix_ns: u64) -> Seq<char>;

/// Formats a Unix timestamp with `time::OffsetDateTime::format(&Rfc3339)`. Trusted: the text
/// is what `rfc3339_text` names. `from_unix_timestamp_nanos` accepts every `u64` count (it
/// rejects only years outside -9999..=9999), and RFC 3339 formatting fails only for years
/// outside 0..=9999 or offsets with seconds, which a UTC time from a `u64` count never has.
#[verifier::external_body]
fn format_rfc3339(unix_ns: u64) -> (text: String)
    ensures
        text@ == rfc3339_text(unix_ns),
{
    OffsetDateTime::from_unix_timestamp_nanos(i128::from(unix_ns)).unwrap().format(&Rfc3339).unwrap()
}

/// The timestamp columns of a CSV row: RFC 3339 time and whole Unix milliseconds.
pub open spec fn spec_timestamp_columns(unix_ns: u64) -> Seq<char> {
    rfc3339_text(unix_ns) + ","@ + spec_decimal(unix_ns as nat / 1_000_000)
}

/// The counters of a set of ingress metrics, in log column order.
pub open spec fn spec_ingress_counts(m: IngressMetrics) -> Seq<usize> {
    seq![
        m.flow_count,
        m.classify_backpressure,
        m.packet_total,
        m.byte_total,
        m.packet_interval,
        m.byte_interval,
        m.unoptimised_packet_total,
        m.unoptimised_byte_total,
        m.unoptimised_packet_interval,
        m.unoptimised_byte_interval,
    ]
}

/// The row written to the ingress metrics log: the timestamp columns, the given interval
/// text (seconds with six decimals, formatted where floating point is available), and the
/// counters in `spec_ingress_counts` order.
pub open spec fn spec_ingress_csv_row(m: IngressMetrics, interval_secs: Seq<char>) -> Seq<char> {
    spec_timestamp_columns(m.timestamp_unix_ns) + ","@ + interval_secs + spec_count_columns(
        spec_ingress_counts(m),
    )
}

/// The row written to the classification log.
pub open spec fn spec_classify_csv_row(m: ClassifyMetrics) -> Seq<char> {
    spec_timestamp_columns(m.timestamp_unix_ns) + ","@ + m.thread_name@ + ","@ + spec_decimal(
        m.conntrack_id as nat,
    ) + ","@ + spec_display_name(m.traffic_type)
}

/// A classification row ends with a comma and the name of the row's own traffic class, as
/// the class is displayed: "Google Meet", "Instagram", "TikTok", "Twitter" or "YouTube".
pub proof fn lemma_classify_row_ends_with_class_name(m: ClassifyMetrics)
    ensures
        ({
            let row = spec_classify_csv_row(m);
            let name = spec_display_name(m.traffic_type);
            &&& row.len() > name.len()
            &&& row.subrange(row.len() - name.len() - 1, row.len() as int) == ","@ + name
            &&& m.traffic_type == TrafficType::GoogleMeet ==> row.skip(row.len() - 11) == "Google Meet"@
            &&& m.traffic_type == TrafficType::Instagram ==> row.skip(row.len() - 9) == "Instagram"@
            &&& m.traffic_type == TrafficType::TikTok ==> row.skip(row.len() - 6) == "TikTok"@
            &&& m.traffic_type == TrafficType::Twitter ==> row.skip(row.len() - 7) == "Twitter"@
            &&& m.traffic_type == TrafficType::Youtube ==> row.skip(row.len() - 7) == "YouTube"@
            &&& row[row.len() - name.len() - 1] == ','
            &&& row == rfc3339_text(m.timestamp_unix_ns) + ","@ + spec_decimal(m.timestamp_unix_ns as nat / 1_000_000)
                + ","@ + m.thread_name@ + ","@ + spec_decimal(m.conntrack_id as nat) + ","@ + name
        }),
{
    reveal_strlit("Google Meet");
    reveal_strlit("Instagram");
    reveal_strlit("TikTok");
    reveal_strlit("Twitter");
    reveal_strlit("YouTube");
    reveal_strlit(",");
    let row = spec_classify_csv_row(m);
    let name = spec_display_name(m.traffic_type);
    let head = spec_timestamp_columns(m.timestamp_unix_ns) + ","@ + m.thread_name@ + ","@ + spec_decimal(
        m.conntrack_id as nat,
    );
    assert(row == head + ","@ + name);
    assert(row.subrange(row.len() - name.len() - 1, row.len() as int) =~= ","@ + name);
    assert(row.skip(row.len() - name.len()) =~= name);
}

fn append_timestamp_columns(out: &mut String, unix_ns: u64)
    ensures
        final(out)@ == old(out)@ + spec_timestamp_columns(unix_ns),
{
    let text = format_rfc3339(unix_ns);
    out.append(text.as_str());
    out.append(",");
    append_decimal(out, unix_ns as u128 / 1_000_000);
    assert(final(out)@ =~= old(out)@ + spec_timestamp_columns(unix_ns));
}

/// The ingress metrics log row for a set of metrics and its interval text, without its
/// line break.
pub fn ingress_csv_row(m: &IngressMetrics, interval_secs: &str) -> (row: String)
    ensures
        row@ == spec_ingress_csv_row(*m, interval_secs@),
{
    let mut row = String::new();
    append_timestamp_columns(&mut row, m.timestamp_unix_ns);
    row.append(",");
    row.append(interval_secs);
    let counts: [usize; 10] = [
        m.flow_count,
        m.classify_backpressure,
        m.packet_total,
        m.byte_total,
        m.packet_interval,
        m.byte_interval,
        m.unoptimised_packet_total,
        m.unoptimised_byte_total,
        m.unoptimised_packet_interval,
        m.unoptimised_byte_interval,
    ];
    let ghost prefix = row@;
    let mut i: usize = 0;
    while i < 10
        invariant
            i <= 10,
            row@ == prefix + spec_count_columns(counts@.take(i as int)),
        decreases 10 - i,
    {
        row.append(",");
        append_decimal(&mut row, counts[i] as u128);
        assert(counts@.take(i + 1).drop_last() =~= counts@.take(i as int));
        assert(row@ =~= prefix + spec_count_columns(counts@.take(i + 1)));
        i = i + 1;
    }
    assert(counts@.take(10) =~= counts@);
    assert(counts@ =~= spec_ingress_counts(*m));
    row
}

/// Comma-led decimal columns for a run of counts.
pub open spec fn spec_count_columns(counts: Seq<usize>) -> Seq<char>
    decreases counts.len(),
{
    if counts.len() == 0 {
        Seq::empty()
    } else {
        spec_count_columns(counts.drop_last()) + ","@ + spec_decimal(counts.last() as nat)
    }
}

/// The classification log row for a worker's metrics, without its line break.
pub fn classify_csv_row(m: &ClassifyMetrics) -> (row: String)
    ensures
        row@ == spec_classify_csv_row(*m),
{
    let mut row = String::new();
    append_timestamp_columns(&mut row, m.timestamp_unix_ns);
    row.append(",");
    row.append(m.thread_name.as_str());
    row.append(",");
    append_decimal(&mut row, m.conntrack_id as u128);
    row.append(",");
    let name = m.traffic_type.to_string();
    row.append(name.as_str());
    assert(row@ =~= spec_classify_csv_row(*m));
    row
}

/// How often, in nanoseconds, the monitor logs a summary and flushes its logs.
pub const PRINT_INTERVAL_NS: u64 = 1_000_000_000;

/// The decisions of the monitor loop: which ingress metrics to summarise, and when to log
/// the summary and flush the metrics logs. Receiving metrics, writing rows, flushing and
/// sleeping happen around it.
pub struct MonitorState {
    /// The latest ingress metrics received.
    pub last_ingress_metrics: Option<IngressMetrics>,
    /// When the summary was last due, in nanoseconds of a monotonic clock.
    pub last_print: u64,
}

impl MonitorState {
    /// The state at start-up, at time `now`.
    pub fn new(now: u64) -> (state: MonitorState)
        ensures
            state.last_ingress_metrics is None,
            state.last_print == now,
    {
        MonitorState { last_ingress_metrics: None, last_print: now }
    }

    /// One pass of the monitor loop at `now`, after receiving the latest ingress metrics of
    /// the pass, if any. Returns the metrics to log a summary of and whether to flush the
    /// logs: both are due once more than `PRINT_INTERVAL_NS` passed since they were last
    /// due, and the metrics are the latest received (none before any arrived).
    pub fn on_tick(&mut self, received: Option<IngressMetrics>, now: u64) -> (tick: (Option<IngressMetrics>, bool))
        ensures
            final(self).last_ingress_metrics == if received is Some {
                received
            } else {
                old(self).last_ingress_metrics
            },
            tick.1 == (spec_elapsed(old(self).last_print, now) > PRINT_INTERVAL_NS),
            final(self).last_print == if tick.1 {
                now
            } else {
                old(self).last_print
            },
            tick.0 == if tick.1 {
                final(self).last_ingress_metrics
            } else {
                None
            },
    {
        if received.is_some() {
            self.last_ingress_metrics = received;
        }
        if now.saturating_sub(self.last_print) <= PRINT_INTERVAL_NS {
            return (None, false);
        }
        self.last_print = now;
        (self.last_ingress_metrics, true)
    }
}

} // verus!
