//! The attack-evolution harness: a candidate backlog, a bounded outcome
//! archive, fitness analytics and the breeding operators.

use std::collections::VecDeque;
use vstd::prelude::*;

use crate::millis::{sat_add64, spec_cap32, spec_sat_add64};
use crate::strutil::{decimal_of, str_concat, u64_to_dec};
use crate::stimulus::{StimulusCommand, StimulusSchedule};
use crate::table::{merge_u32_map, spec_get_or, spec_merge, U32Table};

verus! {

/// The strategy used for selecting parents for the next generation.
#[derive(Debug, Clone, Copy, PartialEq, Eq, Structural)]
pub enum SelectionStrategy {
    /// Tournament selection with the given sample size.
    Tournament { size: usize },
    /// Roulette-wheel selection weighted by fitness.
    RouletteWheel,
}

/// The strategy used for crossover.
#[derive(Debug, Clone, Copy, PartialEq, Eq, Structural)]
pub enum CrossoverStrategy {
    /// Each step's command group is chosen from one of the parents at random.
    Uniform,
}

/// The strategy used for mutation.
#[derive(Debug, Clone, Copy, PartialEq, Eq, Structural)]
pub enum MutationStrategy {
    /// A random mutation is chosen from a predefined set.
    Random,
}

/// Configuration knobs for the evolution harness.
#[derive(Debug, Clone, Copy, PartialEq, Eq, Structural)]
pub struct EvolutionConfig {
    /// Number of candidates to evaluate in a single iteration.
    pub batch_size: usize,
    /// Maximum generations to retain when archiving outcomes.
    pub max_generations: u32,
    /// Whether to requeue high-performing candidates for mutation.
    pub retain_elite: bool,
    /// The probability of performing crossover, in milli-units of certainty.
    pub crossover_rate: u32,
    pub selection_strategy: SelectionStrategy,
    pub crossover_strategy: CrossoverStrategy,
    pub mutation_strategy: MutationStrategy,
}

impl EvolutionConfig {
    /// Sane defaults for quick experiments.
    pub fn default_smoke_test() -> (r: EvolutionConfig)
        ensures
            r == (EvolutionConfig {
                batch_size: 3usize,
                max_generations: 10u32,
                retain_elite: true,
                crossover_rate: 700u32,
                selection_strategy: SelectionStrategy::Tournament { size: 3usize },
                crossover_strategy: CrossoverStrategy::Uniform,
                mutation_strategy: MutationStrategy::Random,
            }),
    {
        EvolutionConfig {
            batch_size: 3,
            max_generations: 10,
            retain_elite: true,
            crossover_rate: 700,
            selection_strategy: SelectionStrategy::Tournament { size: 3 },
            crossover_strategy: CrossoverStrategy::Uniform,
            mutation_strategy: MutationStrategy::Random,
        }
    }
}

/// A structured mutation to be applied to an attack candidate. Factors and
/// intensities are in milli-units.
#[derive(Debug, PartialEq)]
pub enum Mutation {
    IncreaseStimulus { topic: String, factor: u32 },
    DecreaseStimulus { topic: String, factor: u32 },
    AddSpike { step: u32, intensity: u32 },
    ChangeEventTiming { event_index: usize, new_step: u32 },
}

impl Clone for Mutation {
    fn clone(&self) -> (r: Self)
        ensures
            r == *self,
    {
        match self {
            Mutation::IncreaseStimulus { topic, factor } => Mutation::IncreaseStimulus {
                topic: topic.clone(),
                factor: *factor,
            },
            Mutation::DecreaseStimulus { topic, factor } => Mutation::DecreaseStimulus {
                topic: topic.clone(),
                factor: *factor,
            },
            Mutation::AddSpike { step, intensity } => Mutation::AddSpike {
                step: *step,
                intensity: *intensity,
            },
            Mutation::ChangeEventTiming { event_index, new_step } => Mutation::ChangeEventTiming {
                event_index: *event_index,
                new_step: *new_step,
            },
        }
    }
}

fn clone_opt_string(o: &Option<String>) -> (r: Option<String>)
    ensures
        r == *o,
{
    match o {
        Some(s) => Some(s.clone()),
        None => None,
    }
}

fn clone_opt_mutation(o: &Option<Mutation>) -> (r: Option<Mutation>)
    ensures
        r == *o,
{
    match o {
        Some(m) => Some(m.clone()),
        None => None,
    }
}

/// Description of an attack scenario candidate scheduled for execution.
#[derive(Debug, PartialEq)]
pub struct AttackCandidate {
    /// Unique identifier for correlating outcomes and telemetry.
    pub id: String,
    /// Path to the scenario manifest or generator seed.
    pub scenario_ref: String,
    /// Optional path to a stimulus schedule associated with this candidate.
    pub stimulus_ref: Option<String>,
    /// Generation index (0 for seed scenarios).
    pub generation: u32,
    /// Optional identifier of the candidate that produced this mutation.
    pub parent_id: Option<String>,
    /// Optional mutation that produced this candidate.
    pub mutation: Option<Mutation>,
}

impl Clone for AttackCandidate {
    fn clone(&self) -> (r: Self)
        ensures
            r == *self,
    {
        AttackCandidate {
            id: self.id.clone(),
            scenario_ref: self.scenario_ref.clone(),
            stimulus_ref: clone_opt_string(&self.stimulus_ref),
            generation: self.generation,
            parent_id: clone_opt_string(&self.parent_id),
            mutation: clone_opt_mutation(&self.mutation),
        }
    }
}

/// Aggregated statistics derived from a run's per-step telemetry. Threat and
/// stimulus magnitudes are in milli-units; `avg_cell_count` is a cell count
/// in milli-units.
#[derive(Debug)]
pub struct RunStatistics {
    pub step_count: usize,
    pub avg_threat: u32,
    pub max_threat: u32,
    pub avg_cell_count: u64,
    pub min_cell_count: usize,
    pub max_cell_count: usize,
    pub total_replications: u64,
    pub total_signals: u64,
    pub total_lineage_shifts: u64,
    pub total_stimulus: u64,
    pub signals_by_topic: U32Table,
    pub lineage_by_type: U32Table,
    pub stimuli_by_topic: U32Table,
}

/// Field-for-field agreement of two statistics values, tables compared by
/// their entries.
pub open spec fn spec_stats_like(a: RunStatistics, b: RunStatistics) -> bool {
    &&& a.step_count == b.step_count
    &&& a.avg_threat == b.avg_threat
    &&& a.max_threat == b.max_threat
    &&& a.avg_cell_count == b.avg_cell_count
    &&& a.min_cell_count == b.min_cell_count
    &&& a.max_cell_count == b.max_cell_count
    &&& a.total_replications == b.total_replications
    &&& a.total_signals == b.total_signals
    &&& a.total_lineage_shifts == b.total_lineage_shifts
    &&& a.total_stimulus == b.total_stimulus
    &&& a.signals_by_topic.entries@ == b.signals_by_topic.entries@
    &&& a.lineage_by_type.entries@ == b.lineage_by_type.entries@
    &&& a.stimuli_by_topic.entries@ == b.stimuli_by_topic.entries@
}

impl Clone for RunStatistics {
    fn clone(&self) -> (r: Self)
        ensures
            spec_stats_like(r, *self),
    {
        RunStatistics {
            step_count: self.step_count,
            avg_threat: self.avg_threat,
            max_threat: self.max_threat,
            avg_cell_count: self.avg_cell_count,
            min_cell_count: self.min_cell_count,
            max_cell_count: self.max_cell_count,
            total_replications: self.total_replications,
            total_signals: self.total_signals,
            total_lineage_shifts: self.total_lineage_shifts,
            total_stimulus: self.total_stimulus,
            signals_by_topic: self.signals_by_topic.clone_table(),
            lineage_by_type: self.lineage_by_type.clone_table(),
            stimuli_by_topic: self.stimuli_by_topic.clone_table(),
        }
    }
}

/// Recorded outcome after executing a candidate against the runtime.
#[derive(Debug)]
pub struct AttackOutcome {
    /// Snapshot of the candidate that produced this outcome.
    pub candidate: AttackCandidate,
    /// Fitness in milli-units: higher means stronger adversarial pressure.
    pub fitness_score: u32,
    /// Whether the candidate forced a breach or critical degradation.
    pub breach_observed: bool,
    /// Free-form notes.
    pub notes: Option<String>,
    /// Aggregated run statistics derived from telemetry.
    pub statistics: RunStatistics,
}

/// Agreement of two outcomes, statistics compared field by field.
pub open spec fn spec_outcome_like(a: AttackOutcome, b: AttackOutcome) -> bool {
    &&& a.candidate == b.candidate
    &&& a.fitness_score == b.fitness_score
    &&& a.breach_observed == b.breach_observed
    &&& a.notes == b.notes
    &&& spec_stats_like(a.statistics, b.statistics)
}

impl Clone for AttackOutcome {
    fn clone(&self) -> (r: Self)
        ensures
            spec_outcome_like(r, *self),
    {
        AttackOutcome {
            candidate: self.candidate.clone(),
            fitness_score: self.fitness_score,
            breach_observed: self.breach_observed,
            notes: clone_opt_string(&self.notes),
            statistics: self.statistics.clone(),
        }
    }
}

/// Harness evaluation result combining statistics, fitness and guidance.
#[derive(Debug)]
pub struct HarnessAnalysis {
    pub statistics: RunStatistics,
    pub fitness_score: u32,
    pub breach_observed: bool,
    pub recommended_mutation: Option<Mutation>,
}

/// Per-step telemetry summary used to build [`RunStatistics`]. Threat and
/// stimulus magnitudes are in milli-units.
#[derive(Debug)]
pub struct StepMetrics {
    pub step: u32,
    pub threat_score: u32,
    pub cell_count: u32,
    pub replications: u32,
    pub signals_total: u32,
    pub lineage_shifts_total: u32,
    pub stimulus_total: u32,
    pub signals_by_topic: U32Table,
    pub lineage_shifts_by_lineage: U32Table,
    pub stimulus_by_topic: U32Table,
}

/// Rolling archive snapshot used for persistence.
#[derive(Debug)]
pub struct HarnessState {
    pub config: EvolutionConfig,
    pub backlog: VecDeque<AttackCandidate>,
    pub archive: Vec<AttackOutcome>,
}

/// Execution artifacts captured while running a candidate.
#[derive(Debug)]
pub struct ExecutionReport {
    /// Per-step metrics summarising the telemetry for this run.
    pub steps: Vec<StepMetrics>,
    /// Optional path to persisted telemetry records.
    pub telemetry_path: Option<String>,
    /// Optional path to persisted per-step metrics.
    pub metrics_path: Option<String>,
    /// Optional path to the stimulus schedule used for the run.
    pub stimulus_path: Option<String>,
}

/// Result bundle returned for each evaluated candidate in a loop.
#[derive(Debug)]
pub struct EvaluatedCandidate {
    pub candidate: AttackCandidate,
    pub outcome: AttackOutcome,
    pub analysis: HarnessAnalysis,
    pub follow_up: Option<AttackCandidate>,
    pub report: ExecutionReport,
    pub backlog_len_after: usize,
}

/// Errors emitted when processing harness analytics or persistence. Outside
/// failures are carried as their rendered messages.
#[derive(Debug, PartialEq)]
pub enum HarnessError {
    Io(String),
    Csv(String),
    Json(String),
    EmptyDataset,
    Custom(String),
}

impl Clone for HarnessError {
    fn clone(&self) -> (r: Self)
        ensures
            r == *self,
    {
        match self {
            HarnessError::Io(m) => HarnessError::Io(m.clone()),
            HarnessError::Csv(m) => HarnessError::Csv(m.clone()),
            HarnessError::Json(m) => HarnessError::Json(m.clone()),
            HarnessError::EmptyDataset => HarnessError::EmptyDataset,
            HarnessError::Custom(m) => HarnessError::Custom(m.clone()),
        }
    }
}

impl HarnessError {
    /// A human-readable description of the failure.
    pub fn message(&self) -> (r: String)
        ensures
            self is EmptyDataset ==> r@ == "no rows found in telemetry metrics"@,
    {
        match self {
            HarnessError::Io(m) => str_concat("IO error: ", m.as_str()),
            HarnessError::Csv(m) => str_concat("CSV parse error: ", m.as_str()),
            HarnessError::Json(m) => str_concat("JSON parse error: ", m.as_str()),
            HarnessError::EmptyDataset => {
                let r: String = "no rows found in telemetry metrics".to_owned();
                r
            },
            HarnessError::Custom(m) => m.clone(),
        }
    }
}

// ---------------------------------------------------------------------------
// Statistics accumulation
// ---------------------------------------------------------------------------

pub open spec fn spec_threat_sum(s: Seq<StepMetrics>) -> u64
    decreases s.len(),
{
    if s.len() == 0 {
        0
    } else {
        spec_sat_add64(spec_threat_sum(s.drop_last()), s.last().threat_score as u64)
    }
}

pub open spec fn spec_max_threat(s: Seq<StepMetrics>) -> u32
    decreases s.len(),
{
    if s.len() == 0 {
        0
    } else if s.last().threat_score > spec_max_threat(s.drop_last()) {
        s.last().threat_score
    } else {
        spec_max_threat(s.drop_last())
    }
}

pub open spec fn spec_cell_sum(s: Seq<StepMetrics>) -> u64
    decreases s.len(),
{
    if s.len() == 0 {
        0
    } else {
        spec_sat_add64(spec_cell_sum(s.drop_last()), s.last().cell_count as u64)
    }
}

pub open spec fn spec_min_cell(s: Seq<StepMetrics>) -> u32
    decreases s.len(),
{
    if s.len() == 0 {
        0
    } else if s.len() == 1 {
        s.last().cell_count
    } else if s.last().cell_count < spec_min_cell(s.drop_last()) {
        s.last().cell_count
    } else {
        spec_min_cell(s.drop_last())
    }
}

pub open spec fn spec_max_cell(s: Seq<StepMetrics>) -> u32
    decreases s.len(),
{
    if s.len() == 0 {
        0
    } else if s.last().cell_count > spec_max_cell(s.drop_last()) {
        s.last().cell_count
    } else {
        spec_max_cell(s.drop_last())
    }
}

pub open spec fn spec_repl_sum(s: Seq<StepMetrics>) -> u64
    decreases s.len(),
{
    if s.len() == 0 {
        0
    } else {
        spec_sat_add64(spec_repl_sum(s.drop_last()), s.last().replications as u64)
    }
}

pub open spec fn spec_signal_sum(s: Seq<StepMetrics>) -> u64
    decreases s.len(),
{
    if s.len() == 0 {
        0
    } else {
        spec_sat_add64(spec_signal_sum(s.drop_last()), s.last().signals_total as u64)
    }
}

pub open spec fn spec_shift_sum(s: Seq<StepMetrics>) -> u64
    decreases s.len(),
{
    if s.len() == 0 {
        0
    } else {
        spec_sat_add64(spec_shift_sum(s.drop_last()), s.last().lineage_shifts_total as u64)
    }
}

pub open spec fn spec_stimulus_sum(s: Seq<StepMetrics>) -> u64
    decreases s.len(),
{
    if s.len() == 0 {
        0
    } else {
        spec_sat_add64(spec_stimulus_sum(s.drop_last()), s.last().stimulus_total as u64)
    }
}

pub open spec fn spec_signals_map(s: Seq<StepMetrics>) -> Seq<(String, u32)>
    decreases s.len(),
{
    if s.len() == 0 {
        Seq::empty()
    } else {
        spec_merge(spec_signals_map(s.drop_last()), s.last().signals_by_topic.entries@)
    }
}

pub open spec fn spec_lineage_map(s: Seq<StepMetrics>) -> Seq<(String, u32)>
    decreases s.len(),
{
    if s.len() == 0 {
        Seq::empty()
    } else {
        spec_merge(spec_lineage_map(s.drop_last()), s.last().lineage_shifts_by_lineage.entries@)
    }
}

pub open spec fn spec_stimuli_map(s: Seq<StepMetrics>) -> Seq<(String, u32)>
    decreases s.len(),
{
    if s.len() == 0 {
        Seq::empty()
    } else {
        spec_merge(spec_stimuli_map(s.drop_last()), s.last().stimulus_by_topic.entries@)
    }
}

/// `avg_cell_count` in milli-units: `cell_sum * 1000 / count`, saturating.
pub open spec fn spec_avg_cell(cell_sum: u64, count: int) -> u64
    recommends count > 0,
{
    if (cell_sum as int * 1000) / count > u64::MAX {
        u64::MAX
    } else {
        ((cell_sum as int * 1000) / count) as u64
    }
}

/// What a built statistics value holds for a non-empty step list.
pub open spec fn spec_built_stats(s: Seq<StepMetrics>, r: RunStatistics) -> bool {
    &&& r.step_count == s.len()
    &&& r.avg_threat == spec_cap32(spec_threat_sum(s) / (s.len() as u64))
    &&& r.max_threat == spec_max_threat(s)
    &&& r.avg_cell_count == spec_avg_cell(spec_cell_sum(s), s.len() as int)
    &&& r.min_cell_count == spec_min_cell(s) as usize
    &&& r.max_cell_count == spec_max_cell(s) as usize
    &&& r.total_replications == spec_repl_sum(s)
    &&& r.total_signals == spec_signal_sum(s)
    &&& r.total_lineage_shifts == spec_shift_sum(s)
    &&& r.total_stimulus == spec_stimulus_sum(s)
    &&& r.signals_by_topic.entries@ == spec_signals_map(s)
    &&& r.lineage_by_type.entries@ == spec_lineage_map(s)
    &&& r.stimuli_by_topic.entries@ == spec_stimuli_map(s)
}

/// Fold per-step metrics into run statistics; an empty list is refused.
pub fn build_statistics_from_steps(steps: &Vec<StepMetrics>) -> (r: Result<
    RunStatistics,
    HarnessError,
>)
    ensures
        steps@.len() == 0 <==> r is Err,
        r is Err ==> r == Result::<RunStatistics, HarnessError>::Err(HarnessError::EmptyDataset),
        r is Ok ==> spec_built_stats(steps@, r->Ok_0),
{
    let n = steps.len();
    if n == 0 {
        return Err(HarnessError::EmptyDataset);
    }
    let mut threat_sum: u64 = 0;
    let mut max_threat: u32 = 0;
    let mut cell_sum: u64 = 0;
    let mut min_cell: u32 = 0;
    let mut max_cell: u32 = 0;
    let mut repl_sum: u64 = 0;
    let mut signal_sum: u64 = 0;
    let mut shift_sum: u64 = 0;
    let mut stimulus_sum: u64 = 0;
    let mut signals_map = U32Table::new();
    let mut lineage_map = U32Table::new();
    let mut stimuli_map = U32Table::new();
    let mut i: usize = 0;
    while i < n
        invariant
            n == steps@.len(),
            i <= n,
            threat_sum == spec_threat_sum(steps@.take(i as int)),
            max_threat == spec_max_threat(steps@.take(i as int)),
            cell_sum == spec_cell_sum(steps@.take(i as int)),
            min_cell == spec_min_cell(steps@.take(i as int)),
            max_cell == spec_max_cell(steps@.take(i as int)),
            repl_sum == spec_repl_sum(steps@.take(i as int)),
            signal_sum == spec_signal_sum(steps@.take(i as int)),
            shift_sum == spec_shift_sum(steps@.take(i as int)),
            stimulus_sum == spec_stimulus_sum(steps@.take(i as int)),
            signals_map.entries@ == spec_signals_map(steps@.take(i as int)),
            lineage_map.entries@ == spec_lineage_map(steps@.take(i as int)),
            stimuli_map.entries@ == spec_stimuli_map(steps@.take(i as int)),
        decreases n - i,
    {
        proof {
            assert(steps@.take(i as int + 1).drop_last() =~= steps@.take(i as int));
            assert(steps@.take(i as int + 1).last() == steps@[i as int]);
        }
        let m = &steps[i];
        threat_sum = sat_add64(threat_sum, m.threat_score as u64);
        if m.threat_score > max_threat {
            max_threat = m.threat_score;
        }
        cell_sum = sat_add64(cell_sum, m.cell_count as u64);
        if i == 0 {
            min_cell = m.cell_count;
        } else if m.cell_count < min_cell {
            min_cell = m.cell_count;
        }
        if m.cell_count > max_cell {
            max_cell = m.cell_count;
        }
        repl_sum = sat_add64(repl_sum, m.replications as u64);
        signal_sum = sat_add64(signal_sum, m.signals_total as u64);
        shift_sum = sat_add64(shift_sum, m.lineage_shifts_total as u64);
        stimulus_sum = sat_add64(stimulus_sum, m.stimulus_total as u64);
        merge_u32_map(&mut signals_map, &m.signals_by_topic);
        merge_u32_map(&mut lineage_map, &m.lineage_shifts_by_lineage);
        merge_u32_map(&mut stimuli_map, &m.stimulus_by_topic);
        i = i + 1;
    }
    proof {
        assert(steps@.take(n as int) =~= steps@);
    }
    let avg_threat64 = threat_sum / (n as u64);
    let avg_threat: u32 = if avg_threat64 > u32::MAX as u64 {
        u32::MAX
    } else {
        avg_threat64 as u32
    };
    let avg_cell128: u128 = (cell_sum as u128) * 1000 / (n as u128);
    let avg_cell: u64 = if avg_cell128 > u64::MAX as u128 {
        u64::MAX
    } else {
        avg_cell128 as u64
    };
    Ok(
        RunStatistics {
            step_count: n,
            avg_threat,
            max_threat,
            avg_cell_count: avg_cell,
            min_cell_count: min_cell as usize,
            max_cell_count: max_cell as usize,
            total_replications: repl_sum,
            total_signals: signal_sum,
            total_lineage_shifts: shift_sum,
            total_stimulus: stimulus_sum,
            signals_by_topic: signals_map,
            lineage_by_type: lineage_map,
            stimuli_by_topic: stimuli_map,
        },
    )
}

// ---------------------------------------------------------------------------
// Fitness
// ---------------------------------------------------------------------------

/// Clamp a non-negative quantity to the milli-unit interval `[0, 1000]`.
pub open spec fn spec_clamp1000(v: int) -> u32
    recommends v >= 0,
{
    if v > 1000 {
        1000
    } else {
        v as u32
    }
}

/// `a / b` rounded to the nearest integer, halves rounding up. Every ratio
/// in the fitness formulas divides this way, so threshold comparisons land
/// on the same side of a boundary as the real-valued formulas they stand
/// for.
pub open spec fn spec_div_round(a: int, b: int) -> int
    recommends
        a >= 0,
        b > 0,
{
    (a + b / 2) / b
}

/// Threat component: mean threat over one and a half units, clamped.
pub open spec fn spec_threat_component(stats: RunStatistics) -> u32 {
    spec_clamp1000(spec_div_round((stats.avg_threat as int) * 1000, 1500))
}

/// Replications per step, in milli-units, capped at one whole unit.
pub open spec fn spec_repro_rate(stats: RunStatistics) -> u32 {
    if stats.step_count == 0 {
        if stats.total_replications == 0 {
            0
        } else {
            1000
        }
    } else {
        spec_clamp1000(
            spec_div_round((stats.total_replications as int) * 1000, stats.step_count as int),
        )
    }
}

/// Suppression component: one minus the reproduction rate.
pub open spec fn spec_suppression_component(stats: RunStatistics) -> u32 {
    (1000 - spec_repro_rate(stats)) as u32
}

/// Cell-loss component: relative spread between the largest and smallest
/// population sizes.
pub open spec fn spec_cell_loss_component(stats: RunStatistics) -> u32 {
    if stats.max_cell_count > 0 {
        let spread = if stats.max_cell_count >= stats.min_cell_count {
            stats.max_cell_count - stats.min_cell_count
        } else {
            0
        };
        spec_clamp1000(spec_div_round(spread * 1000, stats.max_cell_count as int))
    } else {
        0
    }
}

/// Stimulus component: total injected stimulus over one and a half units per
/// step.
pub open spec fn spec_stimulus_component(stats: RunStatistics) -> u32 {
    let denom = if stats.step_count == 0 {
        1 as int
    } else {
        stats.step_count as int
    };
    spec_clamp1000(spec_div_round((stats.total_stimulus as int) * 1000, denom * 1500))
}

/// The largest per-lineage shift count.
pub open spec fn spec_max_val(s: Seq<(String, u32)>) -> u32
    decreases s.len(),
{
    if s.len() == 0 {
        0
    } else if s.last().1 > spec_max_val(s.drop_last()) {
        s.last().1
    } else {
        spec_max_val(s.drop_last())
    }
}

/// Lineage component: normalised shift pressure and dominant-lineage focus,
/// blended three to two.
pub open spec fn spec_lineage_component(stats: RunStatistics) -> u32 {
    if stats.step_count == 0 {
        0
    } else {
        let pressure = spec_div_round(
            (stats.total_lineage_shifts as int) * 1000,
            stats.step_count as int,
        );
        let normalised = spec_clamp1000(spec_div_round(pressure * 1000, 600));
        let dominant = spec_max_val(stats.lineage_by_type.entries@) as int;
        let focus = if stats.total_lineage_shifts == 0 {
            0
        } else {
            spec_clamp1000(
                spec_div_round(dominant * 1000, stats.total_lineage_shifts as int),
            )
        };
        spec_div_round((600 * normalised + 400 * focus) as int, 1000) as u32
    }
}

/// Fitness: the weighted sum of the five clamped components; the weights sum
/// to one whole unit, so fitness lies in `[0, 1000]`.
pub open spec fn spec_fitness(stats: RunStatistics) -> u32 {
    spec_div_round(
        (350 * spec_threat_component(stats) + 200 * spec_suppression_component(stats) + 150
            * spec_cell_loss_component(stats) + 200 * spec_lineage_component(stats) + 100
            * spec_stimulus_component(stats)) as int,
        1000,
    ) as u32
}

/// Breach: high fitness, a threat spike past 1.1 units, severe cell loss, or
/// intense lineage churn.
pub open spec fn spec_breach(stats: RunStatistics) -> bool {
    ||| spec_fitness(stats) > 650
    ||| stats.max_threat > 1100
    ||| spec_cell_loss_component(stats) > 450
    ||| spec_lineage_component(stats) > 800
}

/// The largest per-lineage shift count, computed.
fn max_val(t: &U32Table) -> (r: u32)
    ensures
        r == spec_max_val(t.entries@),
{
    let n = t.entries.len();
    let mut best: u32 = 0;
    let mut i: usize = 0;
    while i < n
        invariant
            n == t.entries@.len(),
            i <= n,
            best == spec_max_val(t.entries@.take(i as int)),
        decreases n - i,
    {
        proof {
            assert(t.entries@.take(i as int + 1).drop_last() =~= t.entries@.take(i as int));
            assert(t.entries@.take(i as int + 1).last() == t.entries@[i as int]);
        }
        if t.entries[i].1 > best {
            best = t.entries[i].1;
        }
        i = i + 1;
    }
    proof {
        assert(t.entries@.take(n as int) =~= t.entries@);
    }
    best
}

/// Score a run: the milli-unit fitness in `[0, 1000]` and the breach flag.
#[verifier::rlimit(60)]
pub fn compute_fitness(stats: &RunStatistics) -> (r: (u32, bool))
    ensures
        r.0 == spec_fitness(*stats),
        r.1 == spec_breach(*stats),
        r.0 <= 1000,
{
    let tc: u64 = {
        let t = ((stats.avg_threat as u64) * 1000 + 750) / 1500;
        if t > 1000 {
            1000
        } else {
            t
        }
    };
    let rate: u64 = if stats.step_count == 0 {
        if stats.total_replications == 0 {
            0
        } else {
            1000
        }
    } else {
        let q = ((stats.total_replications as u128) * 1000 + (stats.step_count as u128) / 2) / (
        stats.step_count as u128);
        if q > 1000 {
            1000
        } else {
            q as u64
        }
    };
    let sc: u64 = 1000 - rate;
    let clc: u64 = if stats.max_cell_count > 0 {
        let spread: usize = if stats.max_cell_count >= stats.min_cell_count {
            stats.max_cell_count - stats.min_cell_count
        } else {
            0
        };
        let q = ((spread as u128) * 1000 + (stats.max_cell_count as u128) / 2) / (
        stats.max_cell_count as u128);
        if q > 1000 {
            1000
        } else {
            q as u64
        }
    } else {
        0
    };
    let denom: u128 = if stats.step_count == 0 {
        1
    } else {
        stats.step_count as u128
    };
    let stc: u64 = {
        let q = ((stats.total_stimulus as u128) * 1000 + (denom * 1500) / 2) / (denom * 1500);
        if q > 1000 {
            1000
        } else {
            q as u64
        }
    };
    let lc: u64 = if stats.step_count == 0 {
        0
    } else {
        let pressure: u128 = ((stats.total_lineage_shifts as u128) * 1000 + (
        stats.step_count as u128) / 2) / (stats.step_count as u128);
        let normalised: u128 = {
            let q = (pressure * 1000 + 300) / 600;
            if q > 1000 {
                1000
            } else {
                q
            }
        };
        let dominant = max_val(&stats.lineage_by_type) as u128;
        let focus: u128 = if stats.total_lineage_shifts == 0 {
            0
        } else {
            let q = (dominant * 1000 + (stats.total_lineage_shifts as u128) / 2) / (
            stats.total_lineage_shifts as u128);
            if q > 1000 {
                1000
            } else {
                q
            }
        };
        ((600 * normalised + 400 * focus + 500) / 1000) as u64
    };
    let fitness64: u64 = (350 * tc + 200 * sc + 150 * clc + 200 * lc + 100 * stc + 500) / 1000;
    let fitness: u32 = fitness64 as u32;
    let breach = fitness > 650 || stats.max_threat > 1100 || clc > 450 || lc > 800;
    proof {
        assert(tc == spec_threat_component(*stats));
        assert(rate == spec_repro_rate(*stats));
        assert(sc == spec_suppression_component(*stats));
        assert(clc == spec_cell_loss_component(*stats));
        assert(stc == spec_stimulus_component(*stats));
        assert(lc == spec_lineage_component(*stats));
        assert(fitness == spec_fitness(*stats));
    }
    (fitness, breach)
}

} // verus!

verus! {

/// The mathematical content of a mutation.
pub ghost enum MutationView {
    IncreaseStimulus { topic: Seq<char>, factor: u32 },
    DecreaseStimulus { topic: Seq<char>, factor: u32 },
    AddSpike { step: u32, intensity: u32 },
    ChangeEventTiming { event_index: int, new_step: u32 },
}

impl View for Mutation {
    type V = MutationView;

    open spec fn view(&self) -> MutationView {
        match self {
            Mutation::IncreaseStimulus { topic, factor } => MutationView::IncreaseStimulus {
                topic: topic@,
                factor: *factor,
            },
            Mutation::DecreaseStimulus { topic, factor } => MutationView::DecreaseStimulus {
                topic: topic@,
                factor: *factor,
            },
            Mutation::AddSpike { step, intensity } => MutationView::AddSpike {
                step: *step,
                intensity: *intensity,
            },
            Mutation::ChangeEventTiming { event_index, new_step } => MutationView::ChangeEventTiming {
                event_index: *event_index as int,
                new_step: *new_step,
            },
        }
    }
}

pub open spec fn spec_opt_mut_view(o: Option<Mutation>) -> Option<MutationView> {
    match o {
        Some(m) => Some(m@),
        None => None,
    }
}

/// The index of the first entry holding the largest value; `-1` for an
/// empty table.
pub open spec fn spec_top_idx(s: Seq<(String, u32)>) -> int
    decreases s.len(),
{
    if s.len() == 0 {
        -1
    } else if s.len() == 1 {
        0
    } else {
        let p = spec_top_idx(s.drop_last());
        if s.last().1 > s[p].1 {
            s.len() - 1
        } else {
            p
        }
    }
}

proof fn lemma_top_idx_range(s: Seq<(String, u32)>)
    requires
        s.len() > 0,
    ensures
        0 <= spec_top_idx(s) < s.len(),
    decreases s.len(),
{
    if s.len() == 1 {
    } else {
        lemma_top_idx_range(s.drop_last());
    }
}

/// Lineage-shift pressure below one fifth of a unit per step.
pub open spec fn spec_pressure_low(stats: RunStatistics) -> bool {
    if stats.step_count == 0 {
        stats.total_lineage_shifts == 0
    } else {
        spec_div_round((stats.total_lineage_shifts as int) * 1000, stats.step_count as int) < 200
    }
}

/// The dominant lineage's share of all shifts, in milli-units.
pub open spec fn spec_dominant_ratio(stats: RunStatistics) -> u32 {
    if stats.total_lineage_shifts == 0 {
        0
    } else {
        spec_clamp1000(
            spec_div_round(
                (spec_max_val(stats.lineage_by_type.entries@) as int) * 1000,
                stats.total_lineage_shifts as int,
            ),
        )
    }
}

/// The fixed-priority mutation recommendation ladder: boost the weaker
/// stimulus when fitness is poor; after a breach, add a mid-run spike when
/// signal volume is low or damp the inhibitor; boost the activator under low
/// lineage pressure; focus the dominant lineage when shifts are diffuse;
/// boost the inhibitor under rampant reproduction; boost a dominated
/// activator; otherwise nothing — the candidate is settled.
pub open spec fn spec_recommend(stats: RunStatistics, fitness: u32, breach: bool) -> Option<
    MutationView,
> {
    let stim = stats.stimuli_by_topic.entries@;
    let activator = spec_get_or(stim, "activator"@, 0);
    let inhibitor = spec_get_or(stim, "inhibitor"@, 0);
    if fitness < 400 {
        if activator <= inhibitor {
            Some(MutationView::IncreaseStimulus { topic: "activator"@, factor: 1200 })
        } else {
            Some(MutationView::IncreaseStimulus { topic: "inhibitor"@, factor: 1200 })
        }
    } else if breach {
        if stats.total_signals < stats.step_count as u64 {
            Some(
                MutationView::AddSpike {
                    step: spec_cap32((stats.step_count / 2) as u64),
                    intensity: 500,
                },
            )
        } else {
            Some(MutationView::DecreaseStimulus { topic: "inhibitor"@, factor: 800 })
        }
    } else if spec_pressure_low(stats) {
        Some(MutationView::IncreaseStimulus { topic: "activator"@, factor: 1500 })
    } else if spec_dominant_ratio(stats) < 500 && stats.total_lineage_shifts > 3 {
        if stats.lineage_by_type.entries@.len() > 0 {
            Some(
                MutationView::IncreaseStimulus {
                    topic: stats.lineage_by_type.entries@[spec_top_idx(
                        stats.lineage_by_type.entries@,
                    )].0@,
                    factor: 1500,
                },
            )
        } else {
            None
        }
    } else if spec_repro_rate(stats) > 600 {
        Some(MutationView::IncreaseStimulus { topic: "inhibitor"@, factor: 1500 })
    } else if inhibitor > activator && activator > 0 {
        Some(MutationView::IncreaseStimulus { topic: "activator"@, factor: 1200 })
    } else {
        None
    }
}

/// The first entry index holding the largest value, or none when empty.
fn top_idx(t: &U32Table) -> (r: Option<usize>)
    ensures
        match r {
            Some(i) => i as int == spec_top_idx(t.entries@),
            None => t.entries@.len() == 0,
        },
{
    let n = t.entries.len();
    if n == 0 {
        return None;
    }
    let mut best: usize = 0;
    let mut i: usize = 1;
    while i < n
        invariant
            n == t.entries@.len(),
            1 <= i <= n,
            best < i,
            best as int == spec_top_idx(t.entries@.take(i as int)),
        decreases n - i,
    {
        proof {
            assert(t.entries@.take(i as int + 1).drop_last() =~= t.entries@.take(i as int));
            assert(t.entries@.take(i as int + 1).last() == t.entries@[i as int]);
            lemma_top_idx_range(t.entries@.take(i as int));
        }
        if t.entries[i].1 > t.entries[best].1 {
            best = i;
        }
        i = i + 1;
    }
    proof {
        assert(t.entries@.take(n as int) =~= t.entries@);
    }
    Some(best)
}

/// Derive the recommended structured mutation for a scored run.
pub fn recommend_mutation(stats: &RunStatistics, fitness_score: u32, breach_observed: bool) -> (r:
    Option<Mutation>)
    ensures
        spec_opt_mut_view(r) == spec_recommend(*stats, fitness_score, breach_observed),
{
    let activator = stats.stimuli_by_topic.get_or("activator", 0);
    let inhibitor = stats.stimuli_by_topic.get_or("inhibitor", 0);
    if fitness_score < 400 {
        if activator <= inhibitor {
            Some(Mutation::IncreaseStimulus { topic: "activator".to_owned(), factor: 1200 })
        } else {
            Some(Mutation::IncreaseStimulus { topic: "inhibitor".to_owned(), factor: 1200 })
        }
    } else if breach_observed {
        if stats.total_signals < stats.step_count as u64 {
            let half = stats.step_count / 2;
            let step: u32 = if half > u32::MAX as usize {
                u32::MAX
            } else {
                half as u32
            };
            Some(Mutation::AddSpike { step, intensity: 500 })
        } else {
            Some(Mutation::DecreaseStimulus { topic: "inhibitor".to_owned(), factor: 800 })
        }
    } else {
        let pressure_low: bool = if stats.step_count == 0 {
            stats.total_lineage_shifts == 0
        } else {
            ((stats.total_lineage_shifts as u128) * 1000 + (stats.step_count as u128) / 2) / (
            stats.step_count as u128) < 200
        };
        if pressure_low {
            Some(Mutation::IncreaseStimulus { topic: "activator".to_owned(), factor: 1500 })
        } else {
            let dominant_ratio: u32 = if stats.total_lineage_shifts == 0 {
                0
            } else {
                let q = ((max_val(&stats.lineage_by_type) as u128) * 1000 + (
                stats.total_lineage_shifts as u128) / 2) / (stats.total_lineage_shifts as u128);
                if q > 1000 {
                    1000
                } else {
                    q as u32
                }
            };
            if dominant_ratio < 500 && stats.total_lineage_shifts > 3 {
                match top_idx(&stats.lineage_by_type) {
                    Some(idx) => {
                        proof {
                            lemma_top_idx_range(stats.lineage_by_type.entries@);
                            assert(idx as int == spec_top_idx(stats.lineage_by_type.entries@));
                            assert(stats.lineage_by_type.entries@[idx as int].0@
                                == stats.lineage_by_type.entries@[spec_top_idx(
                                stats.lineage_by_type.entries@,
                            )].0@);
                        }
                        Some(
                            Mutation::IncreaseStimulus {
                                topic: stats.lineage_by_type.entries[idx].0.clone(),
                                factor: 1500,
                            },
                        )
                    },
                    None => None,
                }
            } else {
                let rate: u64 = if stats.step_count == 0 {
                    if stats.total_replications == 0 {
                        0
                    } else {
                        1000
                    }
                } else {
                    let q = ((stats.total_replications as u128) * 1000 + (
                    stats.step_count as u128) / 2) / (stats.step_count as u128);
                    if q > 1000 {
                        1000
                    } else {
                        q as u64
                    }
                };
                if rate > 600 {
                    Some(Mutation::IncreaseStimulus { topic: "inhibitor".to_owned(), factor: 1500 })
                } else if inhibitor > activator && activator > 0 {
                    Some(Mutation::IncreaseStimulus { topic: "activator".to_owned(), factor: 1200 })
                } else {
                    None
                }
            }
        }
    }
}

// ---------------------------------------------------------------------------
// The harness
// ---------------------------------------------------------------------------

/// The next generation index, held at the top of the range.
pub open spec fn spec_next_gen(g: u32) -> u32 {
    if g == u32::MAX {
        g
    } else {
        (g + 1) as u32
    }
}

/// The archive after recording one outcome under the limit `m`: cleared
/// outright when `m` is zero, else appended and truncated from the front to
/// at most `m` entries.
pub open spec fn spec_record(archive: Seq<AttackOutcome>, o: AttackOutcome, m: u32) -> Seq<
    AttackOutcome,
> {
    if m == 0 {
        Seq::empty()
    } else {
        let s = archive.push(o);
        if s.len() > m {
            s.skip(s.len() - m)
        } else {
            s
        }
    }
}

/// The archive after recording a whole sequence of outcomes, oldest first.
pub open spec fn spec_record_all(outcomes: Seq<AttackOutcome>, m: u32) -> Seq<AttackOutcome>
    decreases outcomes.len(),
{
    if outcomes.len() == 0 {
        Seq::empty()
    } else {
        spec_record(spec_record_all(outcomes.drop_last(), m), outcomes.last(), m)
    }
}

/// After recording `k` outcomes into an empty archive with limit `m`, the
/// archive holds exactly `min(k, m)` of them; with `m` zero it is always
/// empty.
pub proof fn lemma_archive_length(outcomes: Seq<AttackOutcome>, m: u32)
    ensures
        spec_record_all(outcomes, m).len() == if outcomes.len() <= m {
            outcomes.len() as int
        } else {
            m as int
        },
    decreases outcomes.len(),
{
    if outcomes.len() == 0 {
    } else {
        lemma_archive_length(outcomes.drop_last(), m);
    }
}

/// Rolling archive of adversarial exploration: a strict FIFO backlog of
/// candidates and a bounded archive of outcomes.
#[derive(Debug)]
pub struct AdversarialHarness {
    pub config: EvolutionConfig,
    pub backlog: VecDeque<AttackCandidate>,
    pub archive: Vec<AttackOutcome>,
}

impl AdversarialHarness {
    /// Create a new harness with the provided configuration.
    pub fn new(config: EvolutionConfig) -> (r: AdversarialHarness)
        ensures
            r.config == config,
            r.backlog@ =~= Seq::<AttackCandidate>::empty(),
            r.archive@ =~= Seq::<AttackOutcome>::empty(),
    {
        AdversarialHarness { config, backlog: VecDeque::new(), archive: Vec::new() }
    }

    /// Reconstruct a harness from persisted state.
    pub fn from_state(state: HarnessState) -> (r: AdversarialHarness)
        ensures
            r.config == state.config,
            r.backlog == state.backlog,
            r.archive == state.archive,
    {
        AdversarialHarness { config: state.config, backlog: state.backlog, archive: state.archive }
    }

    /// Snapshot the full harness state for persistence; restoring the
    /// snapshot with `from_state` reproduces the harness verbatim.
    pub fn snapshot_state(&self) -> (r: HarnessState)
        ensures
            r.config == self.config,
            r.backlog@ == self.backlog@,
            r.archive@.len() == self.archive@.len(),
            forall|i: int|
                0 <= i < self.archive@.len() ==> spec_outcome_like(
                    #[trigger] r.archive@[i],
                    self.archive@[i],
                ),
    {
        let mut backlog: VecDeque<AttackCandidate> = VecDeque::new();
        let n = self.backlog.len();
        let mut i: usize = 0;
        while i < n
            invariant
                n == self.backlog@.len(),
                i <= n,
                backlog@ =~= self.backlog@.take(i as int),
            decreases n - i,
        {
            backlog.push_back(self.backlog[i].clone());
            proof {
                assert(backlog@ =~= self.backlog@.take(i as int + 1));
            }
            i = i + 1;
        }
        proof {
            assert(self.backlog@.take(n as int) =~= self.backlog@);
        }
        let mut archive: Vec<AttackOutcome> = Vec::new();
        let an = self.archive.len();
        let mut j: usize = 0;
        while j < an
            invariant
                an == self.archive@.len(),
                j <= an,
                archive@.len() == j,
                forall|k: int|
                    0 <= k < j ==> spec_outcome_like(#[trigger] archive@[k], self.archive@[k]),
            decreases an - j,
        {
            archive.push(self.archive[j].clone());
            j = j + 1;
        }
        HarnessState { config: self.config, backlog, archive }
    }

    /// Current harness configuration.
    pub fn config(&self) -> (r: &EvolutionConfig)
        ensures
            r == &self.config,
    {
        &self.config
    }

    /// Number of pending candidates waiting to be executed.
    pub fn backlog_len(&self) -> (r: usize)
        ensures
            r == self.backlog@.len(),
    {
        self.backlog.len()
    }

    /// Number of archived outcomes.
    pub fn archive_len(&self) -> (r: usize)
        ensures
            r == self.archive@.len(),
    {
        self.archive.len()
    }

    /// Queue a new candidate at the backlog tail.
    pub fn enqueue(&mut self, candidate: AttackCandidate)
        ensures
            final (self).backlog@ == old(self).backlog@.push(candidate),
            final (self).archive == old(self).archive,
            final (self).config == old(self).config,
    {
        self.backlog.push_back(candidate);
    }

    /// Remove and return up to `batch_size` candidates from the backlog
    /// head: never more than `batch_size`, and never more than the backlog
    /// held.
    pub fn next_batch(&mut self) -> (r: Vec<AttackCandidate>)
        ensures
            r@.len() <= old(self).config.batch_size,
            r@.len() <= old(self).backlog@.len(),
            r@.len() == if old(self).config.batch_size <= old(self).backlog@.len() {
                old(self).config.batch_size as int
            } else {
                old(self).backlog@.len() as int
            },
            r@ == old(self).backlog@.take(r@.len() as int),
            final (self).backlog@ == old(self).backlog@.skip(r@.len() as int),
            final (self).archive == old(self).archive,
            final (self).config == old(self).config,
    {
        let mut batch: Vec<AttackCandidate> = Vec::new();
        let target = self.config.batch_size;
        while batch.len() < target && self.backlog.len() > 0
            invariant
                target == self.config.batch_size,
                batch@.len() <= target,
                batch@.len() <= old(self).backlog@.len(),
                batch@ =~= old(self).backlog@.take(batch@.len() as int),
                self.backlog@ =~= old(self).backlog@.skip(batch@.len() as int),
                self.archive == old(self).archive,
                self.config == old(self).config,
                batch@.len() < target ==> self.backlog@.len() == old(self).backlog@.len()
                    - batch@.len(),
            decreases target - batch@.len(),
        {
            let next = self.backlog.pop_front();
            match next {
                Some(candidate) => {
                    batch.push(candidate);
                    proof {
                        assert(batch@ =~= old(self).backlog@.take(batch@.len() as int));
                        assert(self.backlog@ =~= old(self).backlog@.skip(batch@.len() as int));
                    }
                },
                None => {},
            }
        }
        batch
    }

    /// Append an outcome to the archive and prune it to the configured
    /// generation limit: the oldest entries leave first, and a zero limit
    /// keeps the archive empty.
    pub fn record_outcome(&mut self, outcome: AttackOutcome)
        ensures
            final (self).archive@ == spec_record(
                old(self).archive@,
                outcome,
                old(self).config.max_generations,
            ),
            final (self).backlog == old(self).backlog,
            final (self).config == old(self).config,
    {
        self.archive.push(outcome);
        let limit = self.config.max_generations as usize;
        if limit == 0 {
            self.archive.clear();
            return ;
        }
        let ghost pushed = self.archive@;
        let ghost total = pushed.len();
        while self.archive.len() > limit
            invariant
                limit == old(self).config.max_generations as usize,
                limit > 0,
                total == pushed.len(),
                self.archive@.len() <= total,
                self.archive@ =~= pushed.skip(total - self.archive@.len()),
                self.archive@.len() >= limit || self.archive@.len() == total,
                self.backlog == old(self).backlog,
                self.config == old(self).config,
            decreases self.archive@.len(),
        {
            let ghost k = total - self.archive@.len();
            let removed = self.archive.remove(0);
            proof {
                assert(self.archive@ =~= pushed.skip(k + 1));
            }
        }
        proof {
            if pushed.len() > limit {
                assert(self.archive@ =~= pushed.skip(
                    pushed.len() - old(self).config.max_generations,
                ));
            } else {
                assert(self.archive@ =~= pushed);
            }
        }
    }

    /// Requeue a candidate for additional mutations when elite retention is
    /// enabled.
    pub fn maybe_requeue(&mut self, candidate: AttackCandidate)
        ensures
            old(self).config.retain_elite ==> final (self).backlog@ == old(self).backlog@.push(
                candidate,
            ),
            !old(self).config.retain_elite ==> final (self).backlog == old(self).backlog,
            final (self).archive == old(self).archive,
            final (self).config == old(self).config,
    {
        if self.config.retain_elite {
            self.backlog.push_back(candidate);
        }
    }

    /// The most recent outcomes, newest first, truncated to the configured
    /// generation history.
    pub fn recent_outcomes(&self) -> (r: Vec<&AttackOutcome>)
        ensures
            r@.len() == if self.config.max_generations as int <= self.archive@.len() {
                self.config.max_generations as int
            } else {
                self.archive@.len() as int
            },
            forall|i: int|
                0 <= i < r@.len() ==> *(#[trigger] r@[i]) == self.archive@[self.archive@.len() - 1
                    - i],
    {
        let limit = self.config.max_generations as usize;
        let n = self.archive.len();
        let count = if limit <= n {
            limit
        } else {
            n
        };
        let mut out: Vec<&AttackOutcome> = Vec::new();
        let mut i: usize = 0;
        while i < count
            invariant
                count <= n,
                n == self.archive@.len(),
                i <= count,
                out@.len() == i,
                forall|j: int|
                    0 <= j < i ==> *(#[trigger] out@[j]) == self.archive@[n - 1 - j],
            decreases count - i,
        {
            out.push(&self.archive[n - 1 - i]);
            i = i + 1;
        }
        out
    }
}

} // verus!

verus! {

// ---------------------------------------------------------------------------
// Selection and breeding
// ---------------------------------------------------------------------------

/// A witness that `o` won a tournament over `population`: `sample` is a set
/// of distinct in-range indices of the effective tournament size — never
/// more than the population — and `o` is a sampled outcome whose fitness no
/// other sampled outcome exceeds.
pub open spec fn spec_tournament_winner(
    population: Seq<AttackOutcome>,
    tournament_size: usize,
    o: AttackOutcome,
    sample: Seq<usize>,
) -> bool {
    &&& sample.len() == (if tournament_size <= population.len() {
        tournament_size as int
    } else {
        population.len() as int
    })
    &&& forall|a: int, b: int| 0 <= a < b < sample.len() ==> sample[a] != sample[b]
    &&& forall|a: int| 0 <= a < sample.len() ==> (#[trigger] sample[a]) < population.len()
    &&& exists|a: int| 0 <= a < sample.len() && o == population[#[trigger] sample[a] as int]
    &&& forall|a: int|
        0 <= a < sample.len() ==> population[(#[trigger] sample[a]) as int].fitness_score
            <= o.fitness_score
}

/// Tournament selection: sample `min(tournament_size, population)` distinct
/// outcomes uniformly without replacement and return the fittest, later
/// samples winning ties. Fails on an empty population or a zero tournament.
pub fn tournament_selection<'a>(
    population: &'a Vec<AttackOutcome>,
    tournament_size: usize,
) -> (r: Result<&'a AttackOutcome, String>)
    ensures
        (r is Err) <==> (population@.len() == 0 || tournament_size == 0),
        match r {
            Ok(o) => exists|sample: Seq<usize>|
                spec_tournament_winner(population@, tournament_size, *o, sample),
            Err(_) => true,
        },
{
    if population.len() == 0 {
        return Err("Cannot perform tournament selection on an empty population".to_owned());
    }
    if tournament_size == 0 {
        return Err("Tournament size cannot be zero".to_owned());
    }
    let actual: usize = if tournament_size <= population.len() {
        tournament_size
    } else {
        population.len()
    };
    let idxs = crate::rng::sample_indices(population.len(), actual);
    let mut best: usize = idxs[0];
    let mut j: usize = 1;
    while j < idxs.len()
        invariant
            idxs@.len() == actual,
            1 <= actual <= population@.len(),
            1 <= j <= actual,
            forall|k: int| 0 <= k < idxs@.len() ==> #[trigger] idxs@[k] < population@.len(),
            forall|a: int, b: int| 0 <= a < b < idxs@.len() ==> idxs@[a] != idxs@[b],
            best < population@.len(),
            exists|a: int| 0 <= a < idxs@.len() && best == #[trigger] idxs@[a],
            forall|a: int|
                0 <= a < j ==> population@[(#[trigger] idxs@[a]) as int].fitness_score
                    <= population@[best as int].fitness_score,
        decreases idxs@.len() - j,
    {
        if population[idxs[j]].fitness_score >= population[best].fitness_score {
            best = idxs[j];
        }
        j = j + 1;
    }
    proof {
        assert(spec_tournament_winner(
            population@,
            tournament_size,
            population@[best as int],
            idxs@,
        ));
    }
    Ok(&population[best])
}


/// Roulette-wheel selection: draw weighted by fitness with the total as
/// normaliser, falling back to a uniform draw when the total fitness is
/// zero. Fails only on an empty population.
pub fn roulette_wheel_selection<'a>(population: &'a Vec<AttackOutcome>) -> (r: Result<
    &'a AttackOutcome,
    String,
>)
    ensures
        (r is Err) <==> population@.len() == 0,
        match r {
            Ok(o) => exists|i: int| 0 <= i < population@.len() && *o == #[trigger] population@[i],
            Err(_) => true,
        },
{
    let n = population.len();
    if n == 0 {
        return Err("Cannot perform roulette wheel selection on an empty population".to_owned());
    }
    let mut total: u64 = 0;
    let mut i: usize = 0;
    while i < n
        invariant
            n == population@.len(),
            i <= n,
        decreases n - i,
    {
        total = sat_add64(total, population[i].fitness_score as u64);
        i = i + 1;
    }
    if total == 0 {
        let idx = crate::rng::rand_below(n as u64) as usize;
        return Ok(&population[idx]);
    }
    let mut pick = crate::rng::rand_below(total);
    let mut j: usize = 0;
    while j < n
        invariant
            n == population@.len(),
            j <= n,
        decreases n - j,
    {
        let f = population[j].fitness_score as u64;
        if pick < f {
            return Ok(&population[j]);
        }
        pick = pick - f;
        j = j + 1;
    }
    let idx = crate::rng::rand_below(n as u64) as usize;
    Ok(&population[idx])
}

/// Select one parent outcome by the configured strategy.
pub fn select_parent<'a>(
    population: &'a Vec<AttackOutcome>,
    strategy: &SelectionStrategy,
) -> (r: Result<&'a AttackOutcome, String>)
    ensures
        match r {
            Ok(o) => exists|i: int| 0 <= i < population@.len() && *o == #[trigger] population@[i],
            Err(_) => population@.len() == 0 || (strategy matches SelectionStrategy::Tournament {
                size,
            } && size == 0),
        },
{
    match strategy {
        SelectionStrategy::Tournament { size } => tournament_selection(population, *size),
        SelectionStrategy::RouletteWheel => roulette_wheel_selection(population),
    }
}

/// The shape of the fallback mutation drawn when no recommendation exists: a
/// stimulus boost on one of the three driving topics by ten to fifty per
/// cent.
pub open spec fn spec_fallback_mutation(v: MutationView) -> bool {
    match v {
        MutationView::IncreaseStimulus { topic, factor } => {
            &&& (topic == "activator"@ || topic == "inhibitor"@ || topic == "reproducer"@)
            &&& 1100 <= factor <= 1500
        },
        _ => false,
    }
}

fn fallback_mutation() -> (r: Mutation)
    ensures
        spec_fallback_mutation(r@),
{
    let t = crate::rng::rand_below(3);
    let topic: String = if t == 0 {
        "activator".to_owned()
    } else if t == 1 {
        "inhibitor".to_owned()
    } else {
        "reproducer".to_owned()
    };
    let factor: u32 = 1100 + (crate::rng::rand_below(401) as u32);
    Mutation::IncreaseStimulus { topic, factor }
}

/// Derive a mutation for breeding: the recommendation for the parent's run,
/// or a random stimulus boost when none is recommended.
pub fn perform_mutation(
    mutation_strategy: &MutationStrategy,
    stats: &RunStatistics,
    fitness_score: u32,
    breach_observed: bool,
) -> (r: Option<Mutation>)
    ensures
        r is Some,
        match spec_recommend(*stats, fitness_score, breach_observed) {
            Some(v) => spec_opt_mut_view(r) == Some(v),
            None => match r {
                Some(m) => spec_fallback_mutation(m@),
                None => false,
            },
        },
{
    match mutation_strategy {
        MutationStrategy::Random => {
            match recommend_mutation(stats, fitness_score, breach_observed) {
                Some(m) => Some(m),
                None => Some(fallback_mutation()),
            }
        },
    }
}

// ---------------------------------------------------------------------------
// Evaluation
// ---------------------------------------------------------------------------

/// An analysis agrees with the fitness evaluator's specification.
pub open spec fn spec_analysis_sound(a: HarnessAnalysis) -> bool {
    &&& a.fitness_score == spec_fitness(a.statistics)
    &&& a.fitness_score <= 1000
    &&& a.breach_observed == spec_breach(a.statistics)
    &&& spec_opt_mut_view(a.recommended_mutation) == spec_recommend(
        a.statistics,
        a.fitness_score,
        a.breach_observed,
    )
}

/// The follow-up candidate bred from a recommended mutation.
pub open spec fn spec_follow_up_of(
    candidate: AttackCandidate,
    f: AttackCandidate,
    m: Mutation,
) -> bool {
    &&& f.id@ == candidate.id@ + "-mut"@ + decimal_of(spec_next_gen(candidate.generation) as u64)
    &&& f.scenario_ref == candidate.scenario_ref
    &&& f.stimulus_ref == candidate.stimulus_ref
    &&& f.generation == spec_next_gen(candidate.generation)
    &&& f.parent_id == Some(candidate.id)
    &&& f.mutation == Some(m)
}

/// How one evaluation changes the harness: the outcome snapshot enters the
/// bounded archive exactly as `spec_record` says; a recommended mutation
/// breeds a follow-up candidate that joins the backlog tail; with elite
/// retention on, a settled candidate (no recommendation) is re-enqueued
/// with its mutation cleared instead.
pub open spec fn spec_finalized(
    pre: AdversarialHarness,
    post: AdversarialHarness,
    candidate: AttackCandidate,
    outcome: AttackOutcome,
    follow: Option<AttackCandidate>,
    analysis: HarnessAnalysis,
) -> bool {
    &&& outcome.candidate == candidate
    &&& outcome.fitness_score == analysis.fitness_score
    &&& outcome.breach_observed == analysis.breach_observed
    &&& outcome.notes is Some
    &&& spec_stats_like(outcome.statistics, analysis.statistics)
    &&& post.config == pre.config
    &&& exists|archived: AttackOutcome|
        #[trigger] spec_outcome_like(archived, outcome) && post.archive@ == spec_record(
            pre.archive@,
            archived,
            pre.config.max_generations,
        )
    &&& (pre.config.max_generations == 0 ==> post.archive@ =~= Seq::<AttackOutcome>::empty())
    &&& (pre.config.max_generations > 0 ==> post.archive@.len() == (
        if pre.archive@.len() + 1 <= pre.config.max_generations {
            (pre.archive@.len() + 1) as int
        } else {
            pre.config.max_generations as int
        }) && spec_outcome_like(post.archive@.last(), outcome))
    &&& ((follow is Some) <==> (analysis.recommended_mutation is Some))
    &&& match analysis.recommended_mutation {
        Some(m) => match follow {
            Some(f) => spec_follow_up_of(candidate, f, m) && post.backlog@ == pre.backlog@.push(f),
            None => false,
        },
        None => if pre.config.retain_elite {
            post.backlog@ == pre.backlog@.push(AttackCandidate { mutation: None, ..candidate })
        } else {
            post.backlog == pre.backlog
        },
    }
}

fn next_gen(g: u32) -> (r: u32)
    ensures
        r == spec_next_gen(g),
{
    if g == u32::MAX {
        g
    } else {
        g + 1
    }
}

fn build_follow_up_id(id: &String, gen: u32) -> (r: String)
    ensures
        r@ == id@ + "-mut"@ + decimal_of(gen as u64),
{
    let a = str_concat(id.as_str(), "-mut");
    let digits = u64_to_dec(gen as u64);
    let out = str_concat(a.as_str(), digits.as_str());
    proof {
        assert(out@ =~= id@ + "-mut"@ + decimal_of(gen as u64));
    }
    out
}

fn outcome_note_for_analysis(analysis: &HarnessAnalysis) -> (r: String) {
    let a = str_concat("avg_threat=", crate::immune::render_tenths(
        analysis.statistics.avg_threat,
    ).as_str());
    let b = str_concat(a.as_str(), ", replications_total=");
    let c = str_concat(b.as_str(), u64_to_dec(analysis.statistics.total_replications).as_str());
    let d = str_concat(c.as_str(), ", signals_total=");
    let e = str_concat(d.as_str(), u64_to_dec(analysis.statistics.total_signals).as_str());
    match &analysis.recommended_mutation {
        Some(m) => {
            let f = str_concat(e.as_str(), "; next_mutation=");
            let label = match m {
                Mutation::IncreaseStimulus { .. } => "IncreaseStimulus",
                Mutation::DecreaseStimulus { .. } => "DecreaseStimulus",
                Mutation::AddSpike { .. } => "AddSpike",
                Mutation::ChangeEventTiming { .. } => "ChangeEventTiming",
            };
            str_concat(f.as_str(), label)
        },
        None => e,
    }
}

impl AdversarialHarness {
    /// Archive an evaluated outcome and breed a follow-up candidate from
    /// the recommended mutation; with no recommendation and elite retention
    /// on, re-enqueue the candidate itself with its mutation cleared, as a
    /// seed for the next round.
    fn finalize_evaluation(&mut self, candidate: AttackCandidate, analysis: HarnessAnalysis) -> (r:
        (AttackOutcome, Option<AttackCandidate>, HarnessAnalysis))
        ensures
            spec_finalized(*old(self), *final (self), candidate, r.0, r.1, r.2),
            r.2 == analysis,
    {
        let outcome_candidate = candidate.clone();
        let note = outcome_note_for_analysis(&analysis);
        let outcome = AttackOutcome {
            candidate: outcome_candidate,
            fitness_score: analysis.fitness_score,
            breach_observed: analysis.breach_observed,
            notes: Some(note),
            statistics: analysis.statistics.clone(),
        };
        let archived = outcome.clone();
        let ghost archived_val = archived;
        self.record_outcome(archived);
        proof {
            assert(spec_outcome_like(archived_val, outcome) && self.archive@ == spec_record(
                old(self).archive@,
                archived_val,
                old(self).config.max_generations,
            ));
        }
        let next_candidate: Option<AttackCandidate> = match &analysis.recommended_mutation {
            Some(m) => {
                let next_generation = next_gen(candidate.generation);
                let id = build_follow_up_id(&candidate.id, next_generation);
                Some(
                    AttackCandidate {
                        id,
                        scenario_ref: candidate.scenario_ref.clone(),
                        stimulus_ref: clone_opt_string(&candidate.stimulus_ref),
                        generation: next_generation,
                        parent_id: Some(candidate.id.clone()),
                        mutation: Some(m.clone()),
                    },
                )
            },
            None => None,
        };
        match &next_candidate {
            Some(mutant) => {
                self.enqueue(mutant.clone());
            },
            None => {
                if self.config.retain_elite {
                    let elite = AttackCandidate {
                        id: candidate.id.clone(),
                        scenario_ref: candidate.scenario_ref.clone(),
                        stimulus_ref: clone_opt_string(&candidate.stimulus_ref),
                        generation: candidate.generation,
                        parent_id: clone_opt_string(&candidate.parent_id),
                        mutation: None,
                    };
                    self.enqueue(elite);
                }
            },
        }
        (outcome, next_candidate, analysis)
    }

    /// Evaluate a candidate from precomputed per-step metrics: fold them into
    /// statistics, score them, archive the outcome and breed any recommended
    /// follow-up. Zero steps are refused with `EmptyDataset`.
    pub fn evaluate_steps(&mut self, candidate: AttackCandidate, steps: Vec<StepMetrics>) -> (r:
        Result<(AttackOutcome, Option<AttackCandidate>, HarnessAnalysis), HarnessError>)
        ensures
            (r is Err) <==> steps@.len() == 0,
            r is Err ==> r == Result::<
                (AttackOutcome, Option<AttackCandidate>, HarnessAnalysis),
                HarnessError,
            >::Err(HarnessError::EmptyDataset) && *final (self) == *old(self),
            match r {
                Ok(triple) => {
                    &&& spec_built_stats(steps@, triple.2.statistics)
                    &&& spec_analysis_sound(triple.2)
                    &&& spec_finalized(
                        *old(self),
                        *final (self),
                        candidate,
                        triple.0,
                        triple.1,
                        triple.2,
                    )
                },
                Err(_) => true,
            },
    {
        let stats = match build_statistics_from_steps(&steps) {
            Ok(s) => s,
            Err(e) => {
                return Err(e);
            },
        };
        let scored = compute_fitness(&stats);
        let recommended = recommend_mutation(&stats, scored.0, scored.1);
        let analysis = HarnessAnalysis {
            statistics: stats,
            fitness_score: scored.0,
            breach_observed: scored.1,
            recommended_mutation: recommended,
        };
        Ok(self.finalize_evaluation(candidate, analysis))
    }
}

} // verus!

verus! {

// ---------------------------------------------------------------------------
// Crossover and the generation loop
// ---------------------------------------------------------------------------

/// The executor boundary: the caller runs the simulation for a candidate and
/// combines two parents' stimulus schedules on disk. Nothing is assumed of
/// either answer, so everything downstream is verified for every reply.
pub trait Executor {
    /// Run the scenario a candidate names and hand back per-step metrics.
    fn execute(&mut self, candidate: &AttackCandidate) -> Result<ExecutionReport, HarnessError>;

    /// Combine both parents' stimulus schedules into one for the child and
    /// hand back its schedule reference, if one was produced.
    fn combine_stimulus(
        &mut self,
        parent1: &AttackCandidate,
        parent2: &AttackCandidate,
        child_id: &String,
        generation: u32,
    ) -> Result<Option<String>, HarnessError>;
}

pub open spec fn spec_max_u32(a: u32, b: u32) -> u32 {
    if a >= b {
        a
    } else {
        b
    }
}

/// The child's mutation is one of the parents', or a fresh stimulus boost
/// when the chosen parent carried none.
pub open spec fn spec_crossover_mutation_ok(
    p1: AttackCandidate,
    p2: AttackCandidate,
    m: Option<Mutation>,
) -> bool {
    &&& m is Some
    &&& {
        ||| (p1.mutation is Some && spec_opt_mut_view(m) == spec_opt_mut_view(p1.mutation))
        ||| (p2.mutation is Some && spec_opt_mut_view(m) == spec_opt_mut_view(p2.mutation))
        ||| spec_fallback_mutation(m->Some_0@)
    }
}

/// Breed a child candidate from two parent outcomes: the child takes the
/// first parent's scenario, a generation one past the elder parent's, a
/// stimulus schedule combined through the executor when both parents have
/// one (or the one schedule a single parent has), and a mutation inherited
/// from a coin-chosen parent or synthesised as a stimulus boost. Crossover
/// reaches outside only to combine two schedules, so it fails only when
/// both parents carry one and the executor's combination fails.
pub fn perform_crossover<E: Executor>(
    parent1: &AttackOutcome,
    parent2: &AttackOutcome,
    executor: &mut E,
    crossover_strategy: &CrossoverStrategy,
) -> (r: Result<AttackCandidate, HarnessError>)
    ensures
        (parent1.candidate.stimulus_ref is None || parent2.candidate.stimulus_ref is None) ==> r
            is Ok,
        match r {
            Ok(child) => {
                &&& child.scenario_ref == parent1.candidate.scenario_ref
                &&& child.generation == spec_next_gen(
                    spec_max_u32(parent1.candidate.generation, parent2.candidate.generation),
                )
                &&& child.id@ == "crossover-"@ + parent1.candidate.id@ + "-"@
                    + parent2.candidate.id@ + "-gen"@ + decimal_of(child.generation as u64)
                &&& match child.parent_id {
                    Some(p) => p@ == parent1.candidate.id@ + ","@ + parent2.candidate.id@,
                    None => false,
                }
                &&& (parent1.candidate.stimulus_ref is Some && parent2.candidate.stimulus_ref
                    is None ==> child.stimulus_ref == parent1.candidate.stimulus_ref)
                &&& (parent1.candidate.stimulus_ref is None && parent2.candidate.stimulus_ref
                    is Some ==> child.stimulus_ref == parent2.candidate.stimulus_ref)
                &&& (parent1.candidate.stimulus_ref is None && parent2.candidate.stimulus_ref
                    is None ==> child.stimulus_ref is None)
                &&& spec_crossover_mutation_ok(parent1.candidate, parent2.candidate, child.mutation)
            },
            Err(_) => true,
        },
{
    match crossover_strategy {
        CrossoverStrategy::Uniform => {},
    }
    let g1 = parent1.candidate.generation;
    let g2 = parent2.candidate.generation;
    let child_generation = next_gen(if g1 >= g2 {
        g1
    } else {
        g2
    });
    let a = str_concat("crossover-", parent1.candidate.id.as_str());
    let b = str_concat(a.as_str(), "-");
    let c = str_concat(b.as_str(), parent2.candidate.id.as_str());
    let d = str_concat(c.as_str(), "-gen");
    let digits = u64_to_dec(child_generation as u64);
    let child_id = str_concat(d.as_str(), digits.as_str());
    proof {
        assert(child_id@ =~= "crossover-"@ + parent1.candidate.id@ + "-"@
            + parent2.candidate.id@ + "-gen"@ + decimal_of(child_generation as u64));
    }
    let child_stimulus_ref: Option<String> = match (
        &parent1.candidate.stimulus_ref,
        &parent2.candidate.stimulus_ref,
    ) {
        (Some(_), Some(_)) => {
            match executor.combine_stimulus(
                &parent1.candidate,
                &parent2.candidate,
                &child_id,
                child_generation,
            ) {
                Ok(o) => o,
                Err(e) => {
                    return Err(e);
                },
            }
        },
        (Some(s1), None) => Some(s1.clone()),
        (None, Some(s2)) => Some(s2.clone()),
        (None, None) => None,
    };
    let picked = if crate::rng::rand_below(2) == 0 {
        clone_opt_mutation(&parent1.candidate.mutation)
    } else {
        clone_opt_mutation(&parent2.candidate.mutation)
    };
    let mutation: Option<Mutation> = match picked {
        Some(m) => Some(m),
        None => Some(fallback_mutation()),
    };
    let pid = str_concat(parent1.candidate.id.as_str(), ",");
    let parent_id = str_concat(pid.as_str(), parent2.candidate.id.as_str());
    proof {
        assert(parent_id@ =~= parent1.candidate.id@ + ","@ + parent2.candidate.id@);
    }
    Ok(
        AttackCandidate {
            id: child_id,
            scenario_ref: parent1.candidate.scenario_ref.clone(),
            stimulus_ref: child_stimulus_ref,
            generation: child_generation,
            parent_id: Some(parent_id),
            mutation,
        },
    )
}

/// One returned evaluation is internally consistent: the outcome snapshots
/// its candidate and scores, and a follow-up exists exactly when a mutation
/// was recommended, bred from this candidate.
pub open spec fn spec_evaluation_linked(e: EvaluatedCandidate) -> bool {
    &&& spec_analysis_sound(e.analysis)
    &&& e.outcome.candidate == e.candidate
    &&& e.outcome.fitness_score == e.analysis.fitness_score
    &&& e.outcome.breach_observed == e.analysis.breach_observed
    &&& e.outcome.notes is Some
    &&& spec_stats_like(e.outcome.statistics, e.analysis.statistics)
    &&& ((e.follow_up is Some) <==> (e.analysis.recommended_mutation is Some))
    &&& match e.analysis.recommended_mutation {
        Some(m) => match e.follow_up {
            Some(f) => spec_follow_up_of(e.candidate, f, m),
            None => false,
        },
        None => true,
    }
}

/// How many of these evaluations put a candidate back on the backlog: each
/// follow-up, plus — with elite retention on — each settled candidate.
pub open spec fn spec_requeued_count(evs: Seq<EvaluatedCandidate>, retain: bool) -> int
    decreases evs.len(),
{
    if evs.len() == 0 {
        0
    } else {
        spec_requeued_count(evs.drop_last(), retain) + (
        if evs.last().follow_up is Some || retain {
            1 as int
        } else {
            0 as int
        })
    }
}

/// The total of a sequence of per-round evaluation counts.
pub open spec fn spec_round_sum(sizes: Seq<int>) -> int
    decreases sizes.len(),
{
    if sizes.len() == 0 {
        0
    } else {
        spec_round_sum(sizes.drop_last()) + sizes.last()
    }
}

/// The evaluations of round `r`: the slice of `evs` after the first `r`
/// rounds' worth of entries.
pub open spec fn spec_round_segment(
    evs: Seq<EvaluatedCandidate>,
    sizes: Seq<int>,
    r: int,
) -> Seq<EvaluatedCandidate>
    recommends
        0 <= r < sizes.len(),
{
    evs.subrange(spec_round_sum(sizes.take(r)), spec_round_sum(sizes.take(r + 1)))
}

/// The generation loop's round accounting over a returned evaluation list:
/// the first executed round evaluates the whole starting backlog; every
/// later round evaluates exactly what the previous round re-enqueued
/// (follow-ups, plus retained elites) plus the `batch_size` candidates bred
/// from the non-empty archive (none when the generation limit is zero, since
/// the archive then stays empty); the rounds cover the evaluation list; and
/// the final backlog holds the last round's re-enqueues and bred candidates.
/// Fewer executed rounds than asked means the backlog ran dry.
pub open spec fn spec_round_structure(
    evs: Seq<EvaluatedCandidate>,
    sizes: Seq<int>,
    backlog0: int,
    batch: usize,
    retain: bool,
    m: u32,
    generations: usize,
    final_backlog: int,
) -> bool {
    let bred: int = if m > 0 {
        batch as int
    } else {
        0
    };
    &&& 1 <= sizes.len() <= generations
    &&& sizes[0] == backlog0
    &&& (forall|r: int| 0 <= r < sizes.len() ==> #[trigger] sizes[r] > 0)
    &&& spec_round_sum(sizes) == evs.len()
    &&& (forall|r: int|
        1 <= r < sizes.len() ==> #[trigger] sizes[r] == spec_requeued_count(
            spec_round_segment(evs, sizes, r - 1),
            retain,
        ) + bred)
    &&& final_backlog == spec_requeued_count(spec_round_segment(evs, sizes, sizes.len() - 1), retain)
        + bred
    &&& (sizes.len() < generations ==> final_backlog == 0)
}

/// A prefix of non-negative round counts never sums past the whole.
proof fn lemma_round_sum_take(sizes: Seq<int>, r: int)
    requires
        0 <= r <= sizes.len(),
        forall|k: int| 0 <= k < sizes.len() ==> #[trigger] sizes[k] >= 0,
    ensures
        0 <= spec_round_sum(sizes.take(r)) <= spec_round_sum(sizes),
    decreases sizes.len() - r,
{
    if r == sizes.len() {
        assert(sizes.take(r) =~= sizes);
        lemma_round_sum_nonneg(sizes);
    } else {
        lemma_round_sum_take(sizes, r + 1);
        assert(sizes.take(r + 1).drop_last() =~= sizes.take(r));
        assert(sizes.take(r + 1).last() == sizes[r]);
        lemma_round_sum_nonneg(sizes.take(r));
    }
}

proof fn lemma_round_sum_nonneg(sizes: Seq<int>)
    requires
        forall|k: int| 0 <= k < sizes.len() ==> #[trigger] sizes[k] >= 0,
    ensures
        spec_round_sum(sizes) >= 0,
    decreases sizes.len(),
{
    if sizes.len() > 0 {
        assert(forall|k: int|
            0 <= k < sizes.drop_last().len() ==> #[trigger] sizes.drop_last()[k] >= 0);
        lemma_round_sum_nonneg(sizes.drop_last());
    }
}

/// Appending one executed round to the accounting: earlier rounds\' slices
/// are untouched, the totals add up, and the new round\'s slice is exactly
/// the evaluations appended since the round began.
proof fn lemma_round_structure_extend(
    evs_old: Seq<EvaluatedCandidate>,
    evs_new: Seq<EvaluatedCandidate>,
    sizes_old: Seq<int>,
    new_size: int,
    n_b: int,
    retain: bool,
    bred: int,
)
    requires
        new_size > 0,
        evs_new.len() == evs_old.len() + new_size,
        evs_new.take(evs_old.len() as int) == evs_old,
        forall|k: int| 0 <= k < sizes_old.len() ==> #[trigger] sizes_old[k] > 0,
        spec_round_sum(sizes_old) == evs_old.len(),
    ensures
        spec_round_sum(sizes_old.push(new_size)) == evs_new.len(),
        forall|k: int|
            0 <= k < sizes_old.len() ==> #[trigger] spec_round_segment(
                evs_new,
                sizes_old.push(new_size),
                k,
            ) == spec_round_segment(evs_old, sizes_old, k),
        spec_round_segment(evs_new, sizes_old.push(new_size), sizes_old.len() as int)
            == evs_new.subrange(evs_old.len() as int, evs_new.len() as int),
{
    let sizes_new = sizes_old.push(new_size);
    assert(sizes_new.drop_last() =~= sizes_old);
    assert(spec_round_sum(sizes_new) == spec_round_sum(sizes_old) + new_size);
    assert forall|k: int| 0 <= k <= sizes_old.len() implies #[trigger] spec_round_sum(
        sizes_new.take(k),
    ) == spec_round_sum(sizes_old.take(k)) by {
        assert(sizes_new.take(k) =~= sizes_old.take(k));
    }
    assert forall|k: int| 0 <= k < sizes_old.len() implies #[trigger] spec_round_segment(
        evs_new,
        sizes_new,
        k,
    ) == spec_round_segment(evs_old, sizes_old, k) by {
        lemma_round_sum_take(sizes_old, k);
        lemma_round_sum_take(sizes_old, k + 1);
        let lo = spec_round_sum(sizes_old.take(k));
        let hi = spec_round_sum(sizes_old.take(k + 1));
        assert(sizes_old.take(k + 1).drop_last() =~= sizes_old.take(k));
        assert(sizes_old.take(k + 1).last() == sizes_old[k]);
        lemma_round_sum_nonneg(sizes_old.take(k));
        assert(0 <= lo <= hi <= evs_old.len());
        assert(evs_new.subrange(lo, hi) =~= evs_old.subrange(lo, hi));
    }
    assert(sizes_new.take(sizes_old.len() as int) =~= sizes_old);
    assert(sizes_new.take(sizes_old.len() as int + 1) =~= sizes_new);
    assert(spec_round_segment(evs_new, sizes_new, sizes_old.len() as int) == evs_new.subrange(
        evs_old.len() as int,
        evs_new.len() as int,
    ));
}

/// The archive length after recording `k` outcomes onto a base: appended
/// and clamped at the limit `m`; a zero limit keeps it empty.
pub proof fn lemma_record_from_length(
    base: Seq<AttackOutcome>,
    outcomes: Seq<AttackOutcome>,
    m: u32,
)
    ensures
        outcomes.len() == 0 ==> spec_record_from(base, outcomes, m).len() == base.len(),
        outcomes.len() > 0 && m == 0 ==> spec_record_from(base, outcomes, m).len() == 0,
        outcomes.len() > 0 && m > 0 ==> spec_record_from(base, outcomes, m).len() == (
        if base.len() + outcomes.len() <= m {
            (base.len() + outcomes.len()) as int
        } else {
            m as int
        }),
    decreases outcomes.len(),
{
    if outcomes.len() > 0 {
        lemma_record_from_length(base, outcomes.drop_last(), m);
    }
}

/// The archive after recording a run of outcomes onto an existing base,
/// oldest first. The generation loop only ever advances the archive this
/// way, so outcomes recorded before a failure stay in place.
pub open spec fn spec_record_from(
    base: Seq<AttackOutcome>,
    outcomes: Seq<AttackOutcome>,
    m: u32,
) -> Seq<AttackOutcome>
    decreases outcomes.len(),
{
    if outcomes.len() == 0 {
        base
    } else {
        spec_record(spec_record_from(base, outcomes.drop_last(), m), outcomes.last(), m)
    }
}

impl AdversarialHarness {
    /// Run up to `generations` rounds: evaluate the entire current backlog
    /// through the executor, archive every outcome, then — while the archive
    /// is non-empty — breed `batch_size` new candidates by crossover or
    /// mutation and enqueue them for the next round. On success the round
    /// accounting (`spec_round_structure`) covers the whole evaluation list
    /// and fixes the final backlog; the archive advances by exactly the
    /// evaluations' outcomes in order. An executor failure or an empty
    /// metrics set aborts the loop; the archive is still only ever advanced
    /// by recording, so outcomes archived before the failure stay in place.
    /// With zero rounds or an empty backlog nothing runs and the harness is
    /// untouched.
    pub fn run_generations<E: Executor>(&mut self, generations: usize, executor: &mut E) -> (r:
        Result<Vec<EvaluatedCandidate>, HarnessError>)
        ensures
            final (self).config == old(self).config,
            exists|recorded: Seq<AttackOutcome>|
                final (self).archive@ == #[trigger] spec_record_from(
                    old(self).archive@,
                    recorded,
                    old(self).config.max_generations,
                ),
            generations == 0 ==> r is Ok && *final (self) == *old(self),
            old(self).backlog@.len() == 0 ==> r is Ok && final (self).archive == old(
                self,
            ).archive && final (self).backlog == old(self).backlog,
            match r {
                Ok(evaluations) => {
                    &&& forall|i: int|
                        0 <= i < evaluations@.len() ==> spec_evaluation_linked(
                            #[trigger] evaluations@[i],
                        )
                    &&& (generations == 0 || old(self).backlog@.len() == 0 ==> evaluations@.len()
                        == 0)
                    &&& forall|i: int|
                        0 <= i < evaluations@.len() && i < old(self).backlog@.len() ==> (
                        #[trigger] evaluations@[i]).candidate == old(self).backlog@[i]
                    &&& exists|recorded: Seq<AttackOutcome>|
                        recorded.len() == evaluations@.len() && (forall|i: int|
                            0 <= i < recorded.len() ==> spec_outcome_like(
                                #[trigger] recorded[i],
                                evaluations@[i].outcome,
                            )) && final (self).archive@ == spec_record_from(
                            old(self).archive@,
                            recorded,
                            old(self).config.max_generations,
                        )
                    &&& (generations > 0 && old(self).backlog@.len() > 0 ==> exists|
                        sizes: Seq<int>,
                    |
                        spec_round_structure(
                            evaluations@,
                            sizes,
                            old(self).backlog@.len() as int,
                            old(self).config.batch_size,
                            old(self).config.retain_elite,
                            old(self).config.max_generations,
                            generations,
                            final (self).backlog@.len() as int,
                        ))
                },
                Err(_) => true,
            },
    {
        let ghost archive0 = old(self).archive@;
        let ghost backlog0 = old(self).backlog@;
        let ghost m0 = old(self).config.max_generations;
        let ghost batch0 = old(self).config.batch_size;
        let ghost retain0 = old(self).config.retain_elite;
        let ghost bred0: int = if m0 > 0 {
            batch0 as int
        } else {
            0
        };
        let ghost mut grecorded: Seq<AttackOutcome> = Seq::empty();
        let ghost mut gsizes: Seq<int> = Seq::empty();
        let mut all_evaluations: Vec<EvaluatedCandidate> = Vec::new();
        let mut gen_idx: usize = 0;
        while gen_idx < generations
            invariant
                self.config == old(self).config,
                archive0 == old(self).archive@,
                backlog0 == old(self).backlog@,
                m0 == old(self).config.max_generations,
                batch0 == old(self).config.batch_size,
                retain0 == old(self).config.retain_elite,
                bred0 == if m0 > 0 {
                    batch0 as int
                } else {
                    0
                },
                gen_idx <= generations,
                self.archive@ == spec_record_from(archive0, grecorded, m0),
                grecorded.len() == all_evaluations@.len(),
                forall|i: int|
                    0 <= i < grecorded.len() ==> spec_outcome_like(
                        #[trigger] grecorded[i],
                        all_evaluations@[i].outcome,
                    ),
                gen_idx == 0 ==> self.backlog == old(self).backlog && self.archive == old(
                    self,
                ).archive && all_evaluations@.len() == 0 && grecorded =~= Seq::<
                    AttackOutcome,
                >::empty(),
                gen_idx > 0 ==> backlog0.len() > 0,
                gen_idx > 0 ==> all_evaluations@.len() >= backlog0.len(),
                backlog0.len() == 0 ==> all_evaluations@.len() == 0 && self.archive == old(
                    self,
                ).archive && self.backlog == old(self).backlog,
                forall|i: int|
                    0 <= i < all_evaluations@.len() ==> spec_evaluation_linked(
                        #[trigger] all_evaluations@[i],
                    ),
                forall|i: int|
                    0 <= i < all_evaluations@.len() && i < backlog0.len() ==> (
                    #[trigger] all_evaluations@[i]).candidate == backlog0[i],
                backlog0.len() > 0 ==> gsizes.len() == gen_idx,
                backlog0.len() > 0 && gsizes.len() == 0 ==> all_evaluations@.len() == 0
                    && self.backlog@ == backlog0,
                backlog0.len() > 0 && gsizes.len() > 0 ==> {
                    &&& gsizes[0] == backlog0.len() as int
                    &&& (forall|k: int| 0 <= k < gsizes.len() ==> #[trigger] gsizes[k] > 0)
                    &&& spec_round_sum(gsizes) == all_evaluations@.len()
                    &&& (forall|k: int|
                        1 <= k < gsizes.len() ==> #[trigger] gsizes[k] == spec_requeued_count(
                            spec_round_segment(all_evaluations@, gsizes, k - 1),
                            retain0,
                        ) + bred0)
                    &&& self.backlog@.len() == spec_requeued_count(
                        spec_round_segment(all_evaluations@, gsizes, gsizes.len() - 1),
                        retain0,
                    ) + bred0
                },
            decreases generations - gen_idx,
        {
            let backlog_size = self.backlog_len();
            if backlog_size == 0 && gen_idx > 0 {
                // the backlog ran dry before the asked-for rounds: stop, with
                // the round accounting closed by an empty final backlog
                proof {
                    assert(spec_round_structure(
                        all_evaluations@,
                        gsizes,
                        backlog0.len() as int,
                        batch0,
                        retain0,
                        m0,
                        generations,
                        self.backlog@.len() as int,
                    ));
                }
                return Ok(all_evaluations);
            }
            let ghost evs_at_round_start = all_evaluations@;
            let ghost round_backlog = self.backlog@;
            let ghost pre_drain_archive = self.archive;
            let ghost pre_drain_backlog = self.backlog;
            let mut candidates_to_process: Vec<AttackCandidate> = Vec::new();
            while self.backlog_len() > 0
                invariant
                    self.config == old(self).config,
                    archive0 == old(self).archive@,
                    m0 == old(self).config.max_generations,
                    self.archive == pre_drain_archive,
                    self.archive@ == spec_record_from(archive0, grecorded, m0),
                    candidates_to_process@ + self.backlog@ == round_backlog,
                    round_backlog.len() == 0 ==> self.backlog == pre_drain_backlog,
                decreases self.backlog@.len(),
            {
                let next = self.backlog.pop_front();
                match next {
                    Some(candidate) => {
                        candidates_to_process.push(candidate);
                        proof {
                            assert(candidates_to_process@ + self.backlog@ =~= round_backlog);
                        }
                    },
                    None => {},
                }
            }
            proof {
                assert(candidates_to_process@ =~= round_backlog);
                assert(self.backlog@.len() == 0);
            }
            if candidates_to_process.len() == 0 && gen_idx == 0 {
                // nothing was seeded: the whole loop is a no-op
                proof {
                    assert(backlog0.len() == 0);
                }
                return Ok(all_evaluations);
            }
            let ghost evals_before_round = all_evaluations@.len();
            let mut ci: usize = 0;
            while ci < candidates_to_process.len()
                invariant
                    self.config == old(self).config,
                    archive0 == old(self).archive@,
                    backlog0 == old(self).backlog@,
                    m0 == old(self).config.max_generations,
                    retain0 == old(self).config.retain_elite,
                    gen_idx < generations,
                    ci <= candidates_to_process@.len(),
                    candidates_to_process@.len() > 0,
                    gen_idx == 0 ==> candidates_to_process@ == backlog0,
                    gen_idx == 0 ==> evals_before_round == 0,
                    gen_idx > 0 ==> backlog0.len() > 0 && evals_before_round >= backlog0.len(),
                    all_evaluations@.len() == evals_before_round + ci,
                    all_evaluations@.take(evals_before_round as int) == evs_at_round_start,
                    self.archive@ == spec_record_from(archive0, grecorded, m0),
                    grecorded.len() == all_evaluations@.len(),
                    forall|i: int|
                        0 <= i < grecorded.len() ==> spec_outcome_like(
                            #[trigger] grecorded[i],
                            all_evaluations@[i].outcome,
                        ),
                    self.backlog@.len() == spec_requeued_count(
                        all_evaluations@.subrange(
                            evals_before_round as int,
                            all_evaluations@.len() as int,
                        ),
                        retain0,
                    ),
                    forall|i: int|
                        0 <= i < all_evaluations@.len() ==> spec_evaluation_linked(
                            #[trigger] all_evaluations@[i],
                        ),
                    forall|i: int|
                        0 <= i < all_evaluations@.len() && i < backlog0.len() ==> (
                        #[trigger] all_evaluations@[i]).candidate == backlog0[i],
                decreases candidates_to_process@.len() - ci,
            {
                let candidate_snapshot = candidates_to_process[ci].clone();
                let report = match executor.execute(&candidate_snapshot) {
                    Ok(rep) => rep,
                    Err(e) => {
                        return Err(e);
                    },
                };
                let stats = match build_statistics_from_steps(&report.steps) {
                    Ok(s) => s,
                    Err(e) => {
                        return Err(e);
                    },
                };
                let scored = compute_fitness(&stats);
                let recommended = recommend_mutation(&stats, scored.0, scored.1);
                let analysis = HarnessAnalysis {
                    statistics: stats,
                    fitness_score: scored.0,
                    breach_observed: scored.1,
                    recommended_mutation: recommended,
                };
                let ghost archive_pre = self.archive@;
                let ghost segment_pre = all_evaluations@.subrange(
                    evals_before_round as int,
                    all_evaluations@.len() as int,
                );
                let candidate_owned = candidates_to_process[ci].clone();
                let finalized = self.finalize_evaluation(candidate_owned, analysis);
                proof {
                    let a = choose|a: AttackOutcome|
                        #[trigger] spec_outcome_like(a, finalized.0) && self.archive@
                            == spec_record(archive_pre, a, m0);
                    let ghost prev = grecorded;
                    grecorded = grecorded.push(a);
                    assert(grecorded.drop_last() =~= prev);
                    assert(self.archive@ == spec_record_from(archive0, grecorded, m0));
                }
                let backlog_len_after = self.backlog_len();
                all_evaluations.push(
                    EvaluatedCandidate {
                        candidate: candidate_snapshot,
                        outcome: finalized.0,
                        analysis: finalized.2,
                        follow_up: finalized.1,
                        report,
                        backlog_len_after,
                    },
                );
                proof {
                    assert(spec_evaluation_linked(all_evaluations@.last()));
                    assert(all_evaluations@.take(evals_before_round as int)
                        =~= evs_at_round_start);
                    let segment_now = all_evaluations@.subrange(
                        evals_before_round as int,
                        all_evaluations@.len() as int,
                    );
                    assert(segment_now.drop_last() =~= segment_pre);
                    assert(segment_now.last() == all_evaluations@.last());
                }
                ci = ci + 1;
            }
            let ghost round_size: int = candidates_to_process@.len() as int;
            let ghost round_segment = all_evaluations@.subrange(
                evals_before_round as int,
                all_evaluations@.len() as int,
            );
            let ghost round_requeued: int = spec_requeued_count(round_segment, retain0);
            proof {
                let gsizes_prev = gsizes;
                gsizes = gsizes.push(round_size);
                assert(gsizes.drop_last() =~= gsizes_prev);
                assert(gsizes.take(gsizes_prev.len() as int) =~= gsizes_prev);
                lemma_round_structure_extend(
                    evs_at_round_start,
                    all_evaluations@,
                    gsizes_prev,
                    round_size,
                    backlog0.len() as int,
                    retain0,
                    bred0,
                );
            }
            if self.archive_len() == 0 {
                proof {
                    lemma_record_from_length(archive0, grecorded, m0);
                    assert(m0 == 0);
                    assert(self.backlog@.len() == round_requeued + bred0);
                }
                gen_idx = gen_idx + 1;
                continue ;
            }
            proof {
                lemma_record_from_length(archive0, grecorded, m0);
                assert(m0 > 0);
            }
            let num_new = self.config.batch_size;
            let ghost backlog_after_evals = self.backlog@.len() as int;
            let mut bi: usize = 0;
            while bi < num_new
                invariant
                    gen_idx < generations,
                    self.config == old(self).config,
                    archive0 == old(self).archive@,
                    backlog0 == old(self).backlog@,
                    backlog0.len() > 0,
                    m0 == old(self).config.max_generations,
                    num_new == old(self).config.batch_size,
                    bi <= num_new,
                    self.archive@ == spec_record_from(archive0, grecorded, m0),
                    self.backlog@.len() == backlog_after_evals + bi,
                    forall|i: int|
                        0 <= i < all_evaluations@.len() ==> spec_evaluation_linked(
                            #[trigger] all_evaluations@[i],
                        ),
                    forall|i: int|
                        0 <= i < all_evaluations@.len() && i < backlog0.len() ==> (
                        #[trigger] all_evaluations@[i]).candidate == backlog0[i],
                decreases num_new - bi,
            {
                let do_crossover = crate::rng::rand_below(1000) < self.config.crossover_rate
                    as u64;
                let new_candidate: AttackCandidate = if do_crossover {
                    let strategy = self.config.selection_strategy;
                    let parent1 = match select_parent(&self.archive, &strategy) {
                        Ok(p) => p,
                        Err(msg) => {
                            return Err(
                                HarnessError::Custom(
                                    str_concat("Selection failed for parent 1: ", msg.as_str()),
                                ),
                            );
                        },
                    };
                    let parent2 = match select_parent(&self.archive, &strategy) {
                        Ok(p) => p,
                        Err(msg) => {
                            return Err(
                                HarnessError::Custom(
                                    str_concat("Selection failed for parent 2: ", msg.as_str()),
                                ),
                            );
                        },
                    };
                    let crossover_strategy = self.config.crossover_strategy;
                    match perform_crossover(parent1, parent2, executor, &crossover_strategy) {
                        Ok(child) => child,
                        Err(e) => {
                            return Err(e);
                        },
                    }
                } else {
                    let strategy = self.config.selection_strategy;
                    let parent = match select_parent(&self.archive, &strategy) {
                        Ok(p) => p,
                        Err(msg) => {
                            return Err(
                                HarnessError::Custom(
                                    str_concat("Selection failed: ", msg.as_str()),
                                ),
                            );
                        },
                    };
                    let a = str_concat(parent.candidate.id.as_str(), "-gen");
                    let b = str_concat(a.as_str(), u64_to_dec((gen_idx as u64) + 1).as_str());
                    let c = str_concat(b.as_str(), "-mut");
                    let new_id = str_concat(
                        c.as_str(),
                        u64_to_dec(crate::rng::rand_below(1000)).as_str(),
                    );
                    let mutation = perform_mutation(
                        &self.config.mutation_strategy,
                        &parent.statistics,
                        parent.fitness_score,
                        parent.breach_observed,
                    );
                    let base_gen: u32 = if gen_idx >= u32::MAX as usize {
                        u32::MAX
                    } else {
                        gen_idx as u32
                    };
                    AttackCandidate {
                        id: new_id,
                        scenario_ref: parent.candidate.scenario_ref.clone(),
                        stimulus_ref: clone_opt_string(&parent.candidate.stimulus_ref),
                        generation: next_gen(base_gen),
                        parent_id: Some(parent.candidate.id.clone()),
                        mutation,
                    }
                };
                self.enqueue(new_candidate);
                bi = bi + 1;
            }
            proof {
                assert(self.backlog@.len() == round_requeued + bred0);
            }
            gen_idx = gen_idx + 1;
        }
        proof {
            if backlog0.len() > 0 && generations > 0 {
                assert(gsizes.len() > 0);
                assert(spec_round_structure(
                    all_evaluations@,
                    gsizes,
                    backlog0.len() as int,
                    batch0,
                    retain0,
                    m0,
                    generations,
                    self.backlog@.len() as int,
                ));
            }
        }
        Ok(all_evaluations)
    }
}

} // verus!

verus! {

proof fn lemma_keys_take_step(s: Seq<(u32, Vec<StimulusCommand>)>, a: int)
    requires
        0 <= a < s.len(),
    ensures
        crate::stimulus::spec_keys(s.take(a + 1)) =~= crate::stimulus::spec_keys(s.take(a)).insert(
            s[a].0,
        ),
{
    let lhs = crate::stimulus::spec_keys(s.take(a + 1));
    let rhs = crate::stimulus::spec_keys(s.take(a)).insert(s[a].0);
    assert forall|k: u32| lhs.contains(k) implies rhs.contains(k) by {
        let i = choose|i: int| 0 <= i < s.take(a + 1).len() && #[trigger] s.take(a + 1)[i].0 == k;
        if i < a {
            assert(s.take(a)[i].0 == k);
        }
    }
    assert forall|k: u32| rhs.contains(k) implies lhs.contains(k) by {
        if k == s[a].0 {
            assert(s.take(a + 1)[a].0 == k);
        } else {
            let i = choose|i: int| 0 <= i < s.take(a).len() && #[trigger] s.take(a)[i].0 == k;
            assert(s.take(a + 1)[i].0 == k);
        }
    }
}

proof fn lemma_keys_push(s: Seq<(u32, Vec<StimulusCommand>)>, e: (u32, Vec<StimulusCommand>))
    ensures
        crate::stimulus::spec_keys(s.push(e)) =~= crate::stimulus::spec_keys(s).insert(e.0),
{
    let lhs = crate::stimulus::spec_keys(s.push(e));
    let rhs = crate::stimulus::spec_keys(s).insert(e.0);
    assert forall|k: u32| lhs.contains(k) implies rhs.contains(k) by {
        let i = choose|i: int| 0 <= i < s.push(e).len() && #[trigger] s.push(e)[i].0 == k;
        if i < s.len() {
            assert(s[i].0 == k);
        }
    }
    assert forall|k: u32| rhs.contains(k) implies lhs.contains(k) by {
        if k == e.0 {
            assert(s.push(e)[s.len() as int].0 == k);
        } else {
            let i = choose|i: int| 0 <= i < s.len() && #[trigger] s[i].0 == k;
            assert(s.push(e)[i].0 == k);
        }
    }
}

fn clone_cmds(v: &Vec<StimulusCommand>) -> (r: Vec<StimulusCommand>)
    ensures
        r@ == v@,
{
    let mut out: Vec<StimulusCommand> = Vec::new();
    let n = v.len();
    let mut i: usize = 0;
    while i < n
        invariant
            n == v@.len(),
            i <= n,
            out@ =~= v@.take(i as int),
        decreases n - i,
    {
        out.push(v[i].clone());
        proof {
            assert(out@ =~= v@.take(i as int + 1));
        }
        i = i + 1;
    }
    proof {
        assert(v@.take(n as int) =~= v@);
    }
    out
}

/// Whether every group of `out` carries some parent's step key with that
/// parent's full command group.
pub open spec fn spec_groups_from(
    out: Seq<(u32, Vec<StimulusCommand>)>,
    p1: Seq<(u32, Vec<StimulusCommand>)>,
    p2: Seq<(u32, Vec<StimulusCommand>)>,
) -> bool {
    forall|i: int|
        0 <= i < out.len() ==> (exists|j: int|
            0 <= j < p1.len() && (#[trigger] p1[j]).0 == (#[trigger] out[i]).0 && p1[j].1@
                == out[i].1@) || (exists|j: int|
            0 <= j < p2.len() && (#[trigger] p2[j]).0 == out[i].0 && p2[j].1@ == out[i].1@)
}

/// Uniform crossover of two stimulus schedules: the child's step-key set is
/// exactly the union of both parents' step-key sets, and each step's full
/// command group is taken whole from one parent — a fair coin picks the
/// donor where both parents schedule the step.
pub fn uniform_crossover_stimulus(
    parent1: &StimulusSchedule,
    parent2: &StimulusSchedule,
) -> (r: StimulusSchedule)
    requires
        parent1.wf(),
        parent2.wf(),
    ensures
        r.wf(),
        crate::stimulus::spec_keys(r.commands@) =~= crate::stimulus::spec_keys(
            parent1.commands@,
        ).union(crate::stimulus::spec_keys(parent2.commands@)),
        r.source is None,
        spec_groups_from(r.commands@, parent1.commands@, parent2.commands@),
{
    let ghost p1 = parent1.commands@;
    let ghost p2 = parent2.commands@;
    let n1 = parent1.commands.len();
    let n2 = parent2.commands.len();
    let mut a: usize = 0;
    let mut b: usize = 0;
    let mut out: Vec<(u32, Vec<StimulusCommand>)> = Vec::new();
    proof {
        assert(crate::stimulus::spec_keys(out@) =~= crate::stimulus::spec_keys(p1.take(0)).union(
            crate::stimulus::spec_keys(p2.take(0)),
        ));
    }
    while a < n1 || b < n2
        invariant
            n1 == p1.len(),
            n2 == p2.len(),
            p1 == parent1.commands@,
            p2 == parent2.commands@,
            a <= n1,
            b <= n2,
            crate::stimulus::spec_sorted(p1),
            crate::stimulus::spec_sorted(p2),
            crate::stimulus::spec_sorted(out@),
            crate::stimulus::spec_keys(out@) =~= crate::stimulus::spec_keys(
                p1.take(a as int),
            ).union(crate::stimulus::spec_keys(p2.take(b as int))),
            out@.len() > 0 && a < n1 ==> out@.last().0 < p1[a as int].0,
            out@.len() > 0 && b < n2 ==> out@.last().0 < p2[b as int].0,
            spec_groups_from(out@, p1, p2),
        decreases (n1 - a) + (n2 - b),
    {
        let ghost out_before = out@;
        let take_first: bool = if a < n1 && b < n2 {
            parent1.commands[a].0 <= parent2.commands[b].0
        } else {
            a < n1
        };
        let both_equal: bool = a < n1 && b < n2 && parent1.commands[a].0 == parent2.commands[b].0;
        if both_equal {
            let key = parent1.commands[a].0;
            let group = if crate::rng::rand_below(2) == 0 {
                clone_cmds(&parent1.commands[a].1)
            } else {
                clone_cmds(&parent2.commands[b].1)
            };
            out.push((key, group));
            proof {
                lemma_keys_take_step(p1, a as int);
                lemma_keys_take_step(p2, b as int);
                lemma_keys_push(out_before, out@.last());
                assert(crate::stimulus::spec_keys(out@) =~= crate::stimulus::spec_keys(
                    p1.take(a as int + 1),
                ).union(crate::stimulus::spec_keys(p2.take(b as int + 1))));
                assert(forall|i: int|
                    0 <= i < out_before.len() ==> #[trigger] out@[i] == out_before[i]);
                assert(crate::stimulus::spec_sorted(out@));
            }
            a = a + 1;
            b = b + 1;
        } else if take_first {
            let key = parent1.commands[a].0;
            let group = clone_cmds(&parent1.commands[a].1);
            out.push((key, group));
            proof {
                lemma_keys_take_step(p1, a as int);
                lemma_keys_push(out_before, out@.last());
                assert(p2.take(b as int) =~= p2.take(b as int));
                assert(crate::stimulus::spec_keys(out@) =~= crate::stimulus::spec_keys(
                    p1.take(a as int + 1),
                ).union(crate::stimulus::spec_keys(p2.take(b as int))));
                assert(forall|i: int|
                    0 <= i < out_before.len() ==> #[trigger] out@[i] == out_before[i]);
                assert(crate::stimulus::spec_sorted(out@));
            }
            a = a + 1;
        } else {
            let key = parent2.commands[b].0;
            let group = clone_cmds(&parent2.commands[b].1);
            out.push((key, group));
            proof {
                lemma_keys_take_step(p2, b as int);
                lemma_keys_push(out_before, out@.last());
                assert(crate::stimulus::spec_keys(out@) =~= crate::stimulus::spec_keys(
                    p1.take(a as int),
                ).union(crate::stimulus::spec_keys(p2.take(b as int + 1))));
                assert(forall|i: int|
                    0 <= i < out_before.len() ==> #[trigger] out@[i] == out_before[i]);
                assert(crate::stimulus::spec_sorted(out@));
            }
            b = b + 1;
        }
    }
    proof {
        assert(p1.take(n1 as int) =~= p1);
        assert(p2.take(n2 as int) =~= p2);
    }
    StimulusSchedule { commands: out, source: None }
}

} // verus!
