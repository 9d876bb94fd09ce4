//! Telemetry: the events a simulation emits and the in-memory sink that
//! observes them. Persistent sinks live outside the verified core and
//! implement the same trait.

use vstd::prelude::*;

use crate::cellular::PopulationStats;

verus! {

/// Degree statistics of the neighbour graph: the average degree in
/// milli-units and the number of isolated cells.
#[derive(Debug, Clone, Copy, PartialEq, Eq, Structural)]
pub struct TopologyStats {
    pub avg_degree: u32,
    pub isolation_count: u32,
}

/// One observable event in a simulation run. Magnitudes are milli-units.
#[derive(Debug, Clone)]
pub enum TelemetryEvent {
    Scenario { name: String },
    CellReplicated { cell_id: String, child_id: String },
    LineageShift { cell_id: String, lineage: String },
    SignalEmitted { cell_id: String, topic: String, value: u32 },
    CellDied { cell_id: String },
    LinkAdded { source: String, target: String },
    LinkRemoved { source: String, target: String },
    PeerQuarantined { cell_id: String, target_id: String },
    AnomalyDetected { cell_id: String, topic: String, confidence: u32 },
    VoteCast { cell_id: String, target_topic: String },
    StepSummary {
        step: u32,
        threat_score: u32,
        cell_count: usize,
        population_stats: Option<PopulationStats>,
        topology_stats: Option<TopologyStats>,
    },
}

/// A recorded event with the wall-clock time it was observed at, in
/// milliseconds since the epoch.
#[derive(Debug)]
pub struct TelemetrySnapshot {
    pub timestamp_ms: u128,
    pub event: TelemetryEvent,
}

impl Clone for TelemetrySnapshot {
    fn clone(&self) -> (r: Self)
        ensures
            r.timestamp_ms == self.timestamp_ms,
    {
        TelemetrySnapshot { timestamp_ms: self.timestamp_ms, event: self.event.clone() }
    }
}

/// A consumer of telemetry events. The simulation is generic over the sink,
/// so persistent sinks outside the verified core plug in here.
pub trait TelemetrySink {
    fn record(&mut self, timestamp_ms: u128, event: TelemetryEvent);
}

/// A sink that keeps every recorded event in memory, in arrival order.
#[derive(Debug)]
pub struct InMemorySink {
    events: Vec<TelemetrySnapshot>,
}

impl View for InMemorySink {
    type V = Seq<TelemetrySnapshot>;

    closed spec fn view(&self) -> Seq<TelemetrySnapshot> {
        self.events@
    }
}

impl Default for InMemorySink {
    fn default() -> (r: InMemorySink)
        ensures
            r@ =~= Seq::<TelemetrySnapshot>::empty(),
    {
        InMemorySink { events: Vec::new() }
    }
}

impl TelemetrySink for InMemorySink {
    fn record(&mut self, timestamp_ms: u128, event: TelemetryEvent)
        ensures
            final (self)@.len() == old(self)@.len() + 1,
            final (self)@.take(old(self)@.len() as int) == old(self)@,
            final (self)@.last().timestamp_ms == timestamp_ms,
            final (self)@.last().event == event,
    {
        self.events.push(TelemetrySnapshot { timestamp_ms, event });
        proof {
            assert(self.events@.take(old(self)@.len() as int) =~= old(self)@);
        }
    }
}

/// The number of snapshots stamped at or after `cutoff_ms`.
pub open spec fn spec_count_since(s: Seq<TelemetrySnapshot>, cutoff_ms: u128) -> int
    decreases s.len(),
{
    if s.len() == 0 {
        0
    } else {
        spec_count_since(s.drop_last(), cutoff_ms) + if s.last().timestamp_ms >= cutoff_ms {
            1 as int
        } else {
            0 as int
        }
    }
}

impl InMemorySink {
    pub fn new() -> (r: InMemorySink)
        ensures
            r@ =~= Seq::<TelemetrySnapshot>::empty(),
    {
        InMemorySink { events: Vec::new() }
    }

    /// Every recorded snapshot, oldest first.
    pub fn events(&self) -> (r: &Vec<TelemetrySnapshot>)
        ensures
            r@ == self@,
    {
        &self.events
    }

    /// The snapshots stamped at or after `cutoff_ms`, in order.
    pub fn since(&self, cutoff_ms: u128) -> (r: Vec<TelemetrySnapshot>)
        ensures
            r@.len() == spec_count_since(self@, cutoff_ms),
            forall|i: int| 0 <= i < r@.len() ==> (#[trigger] r@[i]).timestamp_ms >= cutoff_ms,
    {
        let mut out: Vec<TelemetrySnapshot> = Vec::new();
        let n = self.events.len();
        let mut i: usize = 0;
        while i < n
            invariant
                n == self.events@.len(),
                i <= n,
                out@.len() == spec_count_since(self.events@.take(i as int), cutoff_ms),
                forall|j: int|
                    0 <= j < out@.len() ==> (#[trigger] out@[j]).timestamp_ms >= cutoff_ms,
            decreases n - i,
        {
            proof {
                assert(self.events@.take(i as int + 1).drop_last() =~= self.events@.take(
                    i as int,
                ));
                assert(self.events@.take(i as int + 1).last() == self.events@[i as int]);
            }
            if self.events[i].timestamp_ms >= cutoff_ms {
                out.push(self.events[i].clone());
            }
            i = i + 1;
        }
        proof {
            assert(self.events@.take(n as int) =~= self.events@);
        }
        out
    }
}

/// Milliseconds since the epoch for a timestamp given as whole seconds and
/// subsecond nanoseconds.
pub fn system_time_to_millis(secs: u64, subsec_nanos: u32) -> (r: u128)
    ensures
        r == (secs as int) * 1000 + (subsec_nanos as int) / 1000000,
{
    (secs as u128) * 1000 + ((subsec_nanos / 1000000) as u128)
}

} // verus!

verus! {

/// The number of replication events in a slice of snapshots.
pub open spec fn spec_replications_in(s: Seq<TelemetrySnapshot>) -> int
    decreases s.len(),
{
    if s.len() == 0 {
        0
    } else {
        spec_replications_in(s.drop_last()) + match s.last().event {
            TelemetryEvent::CellReplicated { .. } => 1 as int,
            _ => 0 as int,
        }
    }
}

/// The per-topic counts of emitted signals in a slice of snapshots, built
/// by bumping each `SignalEmitted` topic once, in order.
pub open spec fn spec_signal_counts(s: Seq<TelemetrySnapshot>) -> Seq<(String, u32)>
    decreases s.len(),
{
    if s.len() == 0 {
        Seq::empty()
    } else {
        match s.last().event {
            TelemetryEvent::SignalEmitted { topic, .. } => crate::table::spec_bump(
                spec_signal_counts(s.drop_last()),
                topic,
                1,
            ),
            _ => spec_signal_counts(s.drop_last()),
        }
    }
}

/// The per-lineage counts of lineage shifts in a slice of snapshots.
pub open spec fn spec_lineage_counts(s: Seq<TelemetrySnapshot>) -> Seq<(String, u32)>
    decreases s.len(),
{
    if s.len() == 0 {
        Seq::empty()
    } else {
        match s.last().event {
            TelemetryEvent::LineageShift { lineage, .. } => crate::table::spec_bump(
                spec_lineage_counts(s.drop_last()),
                lineage,
                1,
            ),
            _ => spec_lineage_counts(s.drop_last()),
        }
    }
}

/// The saturating sum of a table's values.
pub open spec fn spec_val_sum(s: Seq<(String, u32)>) -> u64
    decreases s.len(),
{
    if s.len() == 0 {
        0
    } else {
        crate::millis::spec_sat_add64(spec_val_sum(s.drop_last()), s.last().1 as u64)
    }
}

/// The step summary carried by the last `StepSummary` snapshot, if any.
pub open spec fn spec_last_summary(s: Seq<TelemetrySnapshot>) -> Option<(u32, usize)>
    decreases s.len(),
{
    if s.len() == 0 {
        None
    } else {
        match s.last().event {
            TelemetryEvent::StepSummary { threat_score, cell_count, .. } => Some(
                (threat_score, cell_count),
            ),
            _ => spec_last_summary(s.drop_last()),
        }
    }
}

/// Fold the telemetry snapshots of one step into that step's metric row.
/// Replications, emitted signals (by topic) and lineage shifts (by lineage)
/// are counted; the threat score and population size come from the step
/// summary; the injected stimulus is handed in by the caller's ledger.
/// Nothing comes back without a step summary among the events.
pub fn derive_step_metrics(
    events: &Vec<TelemetrySnapshot>,
    step: u32,
    stimulus_by_topic: crate::table::U32Table,
) -> (r: Option<crate::adversarial::StepMetrics>)
    ensures
        (r is Some) <==> (spec_last_summary(events@) is Some),
        match r {
            Some(m) => {
                &&& m.step == step
                &&& m.replications == crate::millis::spec_cap32(
                    spec_replications_in(events@) as u64,
                )
                &&& match spec_last_summary(events@) {
                    Some(summary) => m.threat_score == summary.0 && m.cell_count
                        == crate::millis::spec_cap32(summary.1 as u64),
                    None => false,
                }
                &&& m.signals_by_topic.entries@ == spec_signal_counts(events@)
                &&& m.lineage_shifts_by_lineage.entries@ == spec_lineage_counts(events@)
                &&& m.signals_total == crate::millis::spec_cap32(
                    spec_val_sum(spec_signal_counts(events@)),
                )
                &&& m.lineage_shifts_total == crate::millis::spec_cap32(
                    spec_val_sum(spec_lineage_counts(events@)),
                )
                &&& m.stimulus_by_topic == stimulus_by_topic
                &&& m.stimulus_total == crate::millis::spec_cap32(
                    spec_val_sum(stimulus_by_topic.entries@),
                )
            },
            None => true,
        },
{
    let mut replications: u64 = 0;
    let mut signals_by_topic = crate::table::U32Table::new();
    let mut lineage_by_lineage = crate::table::U32Table::new();
    let mut summary: Option<(u32, usize)> = None;
    let n = events.len();
    let mut i: usize = 0;
    while i < n
        invariant
            n == events@.len(),
            i <= n,
            replications <= i,
            replications == spec_replications_in(events@.take(i as int)),
            signals_by_topic.entries@ == spec_signal_counts(events@.take(i as int)),
            lineage_by_lineage.entries@ == spec_lineage_counts(events@.take(i as int)),
            summary == spec_last_summary(events@.take(i as int)),
        decreases n - i,
    {
        proof {
            assert(events@.take(i as int + 1).drop_last() =~= events@.take(i as int));
            assert(events@.take(i as int + 1).last() == events@[i as int]);
        }
        match &events[i].event {
            TelemetryEvent::CellReplicated { .. } => {
                replications = crate::millis::sat_add64(replications, 1);
            },
            TelemetryEvent::SignalEmitted { topic, .. } => {
                signals_by_topic.bump(topic, 1);
            },
            TelemetryEvent::LineageShift { lineage, .. } => {
                lineage_by_lineage.bump(lineage, 1);
            },
            TelemetryEvent::StepSummary { threat_score, cell_count, .. } => {
                summary = Some((*threat_score, *cell_count));
            },
            _ => {},
        }
        i = i + 1;
    }
    proof {
        assert(events@.take(n as int) =~= events@);
    }
    match summary {
        Some(pair) => {
            let mut signals_total: u64 = 0;
            let mut si: usize = 0;
            let sn = signals_by_topic.len();
            while si < sn
                invariant
                    sn == signals_by_topic.entries@.len(),
                    si <= sn,
                    signals_total == spec_val_sum(signals_by_topic.entries@.take(si as int)),
                decreases sn - si,
            {
                proof {
                    assert(signals_by_topic.entries@.take(si as int + 1).drop_last()
                        =~= signals_by_topic.entries@.take(si as int));
                    assert(signals_by_topic.entries@.take(si as int + 1).last()
                        == signals_by_topic.entries@[si as int]);
                }
                signals_total = crate::millis::sat_add64(
                    signals_total,
                    signals_by_topic.entries[si].1 as u64,
                );
                si = si + 1;
            }
            let mut lineage_total: u64 = 0;
            let mut li: usize = 0;
            let ln = lineage_by_lineage.len();
            while li < ln
                invariant
                    ln == lineage_by_lineage.entries@.len(),
                    li <= ln,
                    lineage_total == spec_val_sum(lineage_by_lineage.entries@.take(li as int)),
                decreases ln - li,
            {
                proof {
                    assert(lineage_by_lineage.entries@.take(li as int + 1).drop_last()
                        =~= lineage_by_lineage.entries@.take(li as int));
                    assert(lineage_by_lineage.entries@.take(li as int + 1).last()
                        == lineage_by_lineage.entries@[li as int]);
                }
                lineage_total = crate::millis::sat_add64(
                    lineage_total,
                    lineage_by_lineage.entries[li].1 as u64,
                );
                li = li + 1;
            }
            let mut stimulus_total: u64 = 0;
            let mut ti: usize = 0;
            let tn = stimulus_by_topic.len();
            while ti < tn
                invariant
                    tn == stimulus_by_topic.entries@.len(),
                    ti <= tn,
                    stimulus_total == spec_val_sum(stimulus_by_topic.entries@.take(ti as int)),
                decreases tn - ti,
            {
                proof {
                    assert(stimulus_by_topic.entries@.take(ti as int + 1).drop_last()
                        =~= stimulus_by_topic.entries@.take(ti as int));
                    assert(stimulus_by_topic.entries@.take(ti as int + 1).last()
                        == stimulus_by_topic.entries@[ti as int]);
                }
                stimulus_total = crate::millis::sat_add64(
                    stimulus_total,
                    stimulus_by_topic.entries[ti].1 as u64,
                );
                ti = ti + 1;
            }
            proof {
                assert(signals_by_topic.entries@.take(sn as int) =~= signals_by_topic.entries@);
                assert(lineage_by_lineage.entries@.take(ln as int)
                    =~= lineage_by_lineage.entries@);
                assert(stimulus_by_topic.entries@.take(tn as int) =~= stimulus_by_topic.entries@);
            }
            Some(
                crate::adversarial::StepMetrics {
                    step,
                    threat_score: pair.0,
                    cell_count: crate::millis::cap32(pair.1 as u64),
                    replications: crate::millis::cap32(replications),
                    signals_total: crate::millis::cap32(signals_total),
                    lineage_shifts_total: crate::millis::cap32(lineage_total),
                    stimulus_total: crate::millis::cap32(stimulus_total),
                    signals_by_topic,
                    lineage_shifts_by_lineage: lineage_by_lineage,
                    stimulus_by_topic,
                },
            )
        },
        None => None,
    }
}

} // verus!
