//! Cellular automaton primitives: genome-parameterised security cells and
//! their per-tick decision function.

use vstd::prelude::*;

use crate::immune::{
    signal_payload, spec_attest_result, spec_payload, Attestation, PublicKeyDirectory, ThreatEvent,
    TPM,
};
use crate::millis::{
    cap32, mul_milli, mul_milli64, sat_add, sat_add64, sat_sub, spec_cap32, spec_mul_milli,
    spec_mul_milli64, spec_sat_add, spec_sat_add64, spec_sat_sub,
};
use crate::signaling::Signal;
use crate::strutil::{str_concat, str_eq};
use crate::table::{
    contains_str, spec_bump, spec_get_or, spec_key_in, spec_put, spec_retain, U32Table,
};

verus! {

/// What a cell sees during one tick: the step index, its local threat score
/// in milli-units, the signals visible to it and the neighbours it detects.
#[derive(Debug)]
pub struct CellEnvironment {
    pub step: u32,
    /// Local threat score in milli-units.
    pub local_threat_score: u32,
    pub neighbor_signals: Vec<Signal>,
    pub detected_neighbors: Vec<String>,
}

/// A cell's differentiated role.
#[derive(Debug, Clone, Copy, PartialEq, Eq, Structural)]
pub enum CellLineage {
    Stem,
    Firewall,
    IntrusionDetection,
    Encryption,
    Healer,
}

/// A cell's mutable state. Energy lives in `[0, 1500]` milli-units and
/// stress in `[0, 1000]`.
#[derive(Debug)]
pub struct CellState {
    pub lineage: CellLineage,
    /// Energy in milli-units, at most `1500`.
    pub energy: u32,
    /// Stress in milli-units, at most `1000`.
    pub stress_level: u32,
    pub dead: bool,
    pub immune_memory: Vec<ThreatEvent>,
    /// Trust per neighbour identity, in milli-units up to `1000`.
    pub neighbor_trust: U32Table,
    pub blacklist: Vec<String>,
}

/// The continuous parameters governing a cell's thresholds and rates, in
/// milli-units.
#[derive(Debug, Clone, Copy, PartialEq, Eq, Structural)]
pub struct CellGenome {
    pub threat_inhibitor_factor: u32,
    pub stress_decay: u32,
    pub stress_sensitivity: u32,
    pub energy_recharge: u32,
    pub energy_threat_drain: u32,
    pub energy_inhibitor_drain: u32,
    pub reproduction_threshold: u32,
    pub reproduction_energy_cost: u32,
    pub reproduction_energy_min: u32,
    pub stress_differentiation_threshold: u32,
    pub healer_inhibitor_threshold: u32,
    pub healer_stress_limit: u32,
    pub encryption_cooperative_threshold: u32,
    pub encryption_energy_min: u32,
    pub signal_emission_threshold: u32,
    pub connection_cost: u32,
    pub isolation_threshold: u32,
    pub anomaly_sensitivity: u32,
    pub trust_reward: u32,
    pub trust_penalty: u32,
    pub min_trust_threshold: u32,
}

/// The stock genome every seed cell starts from.
pub open spec fn spec_default_genome() -> CellGenome {
    CellGenome {
        threat_inhibitor_factor: 350,
        stress_decay: 450,
        stress_sensitivity: 700,
        energy_recharge: 150,
        energy_threat_drain: 150,
        energy_inhibitor_drain: 100,
        reproduction_threshold: 750,
        reproduction_energy_cost: 300,
        reproduction_energy_min: 600,
        stress_differentiation_threshold: 750,
        healer_inhibitor_threshold: 600,
        healer_stress_limit: 300,
        encryption_cooperative_threshold: 500,
        encryption_energy_min: 900,
        signal_emission_threshold: 600,
        connection_cost: 100,
        isolation_threshold: 850,
        anomaly_sensitivity: 500,
        trust_reward: 50,
        trust_penalty: 200,
        min_trust_threshold: 200,
    }
}

impl Default for CellGenome {
    fn default() -> (r: CellGenome)
        ensures
            r == spec_default_genome(),
    {
        CellGenome {
            threat_inhibitor_factor: 350,
            stress_decay: 450,
            stress_sensitivity: 700,
            energy_recharge: 150,
            energy_threat_drain: 150,
            energy_inhibitor_drain: 100,
            reproduction_threshold: 750,
            reproduction_energy_cost: 300,
            reproduction_energy_min: 600,
            stress_differentiation_threshold: 750,
            healer_inhibitor_threshold: 600,
            healer_stress_limit: 300,
            encryption_cooperative_threshold: 500,
            encryption_energy_min: 900,
            signal_emission_threshold: 600,
            connection_cost: 100,
            isolation_threshold: 850,
            anomaly_sensitivity: 500,
            trust_reward: 50,
            trust_penalty: 200,
            min_trust_threshold: 200,
        }
    }
}

/// One field's worth of genome drift: either untouched, or moved by at most
/// `200` milli-units and floored at `10`.
pub open spec fn spec_drifted(before: u32, after: u32) -> bool {
    ||| after == before
    ||| {
        &&& after >= 10
        &&& after <= spec_sat_add(before, 200)
        &&& before <= 200 || after >= before - 200
    }
}

/// Every parameter within one drift step of its old value.
pub open spec fn spec_genome_drifted(a: CellGenome, b: CellGenome) -> bool {
    &&& spec_drifted(a.threat_inhibitor_factor, b.threat_inhibitor_factor)
    &&& spec_drifted(a.stress_decay, b.stress_decay)
    &&& spec_drifted(a.stress_sensitivity, b.stress_sensitivity)
    &&& spec_drifted(a.energy_recharge, b.energy_recharge)
    &&& spec_drifted(a.energy_threat_drain, b.energy_threat_drain)
    &&& spec_drifted(a.energy_inhibitor_drain, b.energy_inhibitor_drain)
    &&& spec_drifted(a.reproduction_threshold, b.reproduction_threshold)
    &&& spec_drifted(a.reproduction_energy_cost, b.reproduction_energy_cost)
    &&& spec_drifted(a.reproduction_energy_min, b.reproduction_energy_min)
    &&& spec_drifted(a.stress_differentiation_threshold, b.stress_differentiation_threshold)
    &&& spec_drifted(a.healer_inhibitor_threshold, b.healer_inhibitor_threshold)
    &&& spec_drifted(a.healer_stress_limit, b.healer_stress_limit)
    &&& spec_drifted(a.encryption_cooperative_threshold, b.encryption_cooperative_threshold)
    &&& spec_drifted(a.encryption_energy_min, b.encryption_energy_min)
    &&& spec_drifted(a.signal_emission_threshold, b.signal_emission_threshold)
    &&& spec_drifted(a.connection_cost, b.connection_cost)
    &&& spec_drifted(a.isolation_threshold, b.isolation_threshold)
    &&& spec_drifted(a.anomaly_sensitivity, b.anomaly_sensitivity)
    &&& spec_drifted(a.trust_reward, b.trust_reward)
    &&& spec_drifted(a.trust_penalty, b.trust_penalty)
    &&& spec_drifted(a.min_trust_threshold, b.min_trust_threshold)
}

fn mutate_field(f: u32) -> (r: u32)
    ensures
        spec_drifted(f, r),
{
    if crate::rng::rand_below(10) == 0 {
        let d = crate::rng::rand_below(401) as u32;
        let moved = if d >= 200 {
            sat_add(f, d - 200)
        } else {
            sat_sub(f, 200 - d)
        };
        if moved < 10 {
            10
        } else {
            moved
        }
    } else {
        f
    }
}

/// The genome after hardening against an observed threat event: for an
/// `activator` event, stress sensitivity is damped by up to half and the
/// inhibitor factor amplified by up to double, each scaled by the event's
/// confidence.
pub open spec fn spec_adapted(g: CellGenome, e: ThreatEvent) -> CellGenome {
    if e.topic@ =~= seq!['a', 'c', 't', 'i', 'v', 'a', 't', 'o', 'r'] {
        let cut = e.confidence as int / 20;
        let damp = if cut >= 500 { 500 as u32 } else { (1000 - cut) as u32 };
        let boost = if cut >= 1000 { 2000 as u32 } else { (1000 + cut) as u32 };
        CellGenome {
            stress_sensitivity: spec_mul_milli(g.stress_sensitivity, damp),
            threat_inhibitor_factor: spec_mul_milli(g.threat_inhibitor_factor, boost),
            ..g
        }
    } else {
        g
    }
}

impl CellGenome {
    /// Randomly drift each parameter: each one has a small chance of moving
    /// by at most `200` milli-units, and never falls below `10`.
    pub fn mutate(&mut self)
        ensures
            spec_genome_drifted(*old(self), *final (self)),
    {
        self.threat_inhibitor_factor = mutate_field(self.threat_inhibitor_factor);
        self.stress_decay = mutate_field(self.stress_decay);
        self.stress_sensitivity = mutate_field(self.stress_sensitivity);
        self.energy_recharge = mutate_field(self.energy_recharge);
        self.energy_threat_drain = mutate_field(self.energy_threat_drain);
        self.energy_inhibitor_drain = mutate_field(self.energy_inhibitor_drain);
        self.reproduction_threshold = mutate_field(self.reproduction_threshold);
        self.reproduction_energy_cost = mutate_field(self.reproduction_energy_cost);
        self.reproduction_energy_min = mutate_field(self.reproduction_energy_min);
        self.stress_differentiation_threshold = mutate_field(
            self.stress_differentiation_threshold,
        );
        self.healer_inhibitor_threshold = mutate_field(self.healer_inhibitor_threshold);
        self.healer_stress_limit = mutate_field(self.healer_stress_limit);
        self.encryption_cooperative_threshold = mutate_field(
            self.encryption_cooperative_threshold,
        );
        self.encryption_energy_min = mutate_field(self.encryption_energy_min);
        self.signal_emission_threshold = mutate_field(self.signal_emission_threshold);
        self.connection_cost = mutate_field(self.connection_cost);
        self.isolation_threshold = mutate_field(self.isolation_threshold);
        self.anomaly_sensitivity = mutate_field(self.anomaly_sensitivity);
        self.trust_reward = mutate_field(self.trust_reward);
        self.trust_penalty = mutate_field(self.trust_penalty);
        self.min_trust_threshold = mutate_field(self.min_trust_threshold);
    }

    /// Scale the reproduction energy cost inversely to a scenario's
    /// reproduction-rate multiplier: a higher rate makes replication
    /// cheaper. A zero rate leaves the cost alone.
    pub fn scale_reproduction_cost(&mut self, rate: u32)
        ensures
            *final (self) == (CellGenome {
                reproduction_energy_cost: if rate > 0 {
                    crate::millis::spec_div_milli(old(self).reproduction_energy_cost, rate)
                } else {
                    old(self).reproduction_energy_cost
                },
                ..*old(self)
            }),
    {
        if rate > 0 {
            self.reproduction_energy_cost = crate::millis::div_milli(
                self.reproduction_energy_cost,
                rate,
            );
        }
    }

    /// Harden the genome against an observed threat event.
    pub fn adapt_to_event(&mut self, event: &ThreatEvent)
        ensures
            *final (self) == spec_adapted(*old(self), *event),
    {
        if str_eq(event.topic.as_str(), "activator") {
            let cut64: u64 = (event.confidence as u64) / 20;
            let damp: u32 = if cut64 >= 500 {
                500
            } else {
                1000 - (cut64 as u32)
            };
            let boost: u32 = if cut64 >= 1000 {
                2000
            } else {
                1000 + (cut64 as u32)
            };
            self.stress_sensitivity = mul_milli(self.stress_sensitivity, damp);
            self.threat_inhibitor_factor = mul_milli(self.threat_inhibitor_factor, boost);
            proof {
                reveal_strlit("activator");
                assert("activator"@ =~= seq!['a', 'c', 't', 'i', 'v', 'a', 't', 'o', 'r']);
            }
        } else {
            proof {
                reveal_strlit("activator");
                assert("activator"@ =~= seq!['a', 'c', 't', 'i', 'v', 'a', 't', 'o', 'r']);
            }
        }
    }
}

/// Population-wide averages of selected genome parameters, in milli-units.
#[derive(Debug, Clone, Copy, PartialEq, Eq, Structural)]
pub struct PopulationStats {
    pub avg_reproduction_threshold: u32,
    pub avg_stress_sensitivity: u32,
    pub avg_energy_recharge: u32,
    pub avg_threat_inhibitor_factor: u32,
    pub avg_isolation_threshold: u32,
    pub avg_min_trust_threshold: u32,
}

/// The sum of one genome parameter over a population.
pub open spec fn spec_sum_of(s: Seq<SecurityCell>, f: spec_fn(SecurityCell) -> u32) -> int
    decreases s.len(),
{
    if s.len() == 0 {
        0
    } else {
        spec_sum_of(s.drop_last(), f) + f(s.last())
    }
}

proof fn lemma_sum_of_bound(s: Seq<SecurityCell>, f: spec_fn(SecurityCell) -> u32)
    ensures
        0 <= spec_sum_of(s, f) <= s.len() * (u32::MAX as int),
    decreases s.len(),
{
    if s.len() == 0 {
    } else {
        lemma_sum_of_bound(s.drop_last(), f);
        assert((s.len() - 1) * (u32::MAX as int) + (u32::MAX as int) == s.len() * (
        u32::MAX as int)) by (nonlinear_arith);
    }
}

impl PopulationStats {
    /// Average the tracked genome parameters over `cells`; all zeroes for an
    /// empty population.
    pub fn from_cells(cells: &Vec<SecurityCell>) -> (r: PopulationStats)
        requires
            cells@.len() <= u32::MAX,
        ensures
            cells@.len() == 0 ==> r == (PopulationStats {
                avg_reproduction_threshold: 0u32,
                avg_stress_sensitivity: 0u32,
                avg_energy_recharge: 0u32,
                avg_threat_inhibitor_factor: 0u32,
                avg_isolation_threshold: 0u32,
                avg_min_trust_threshold: 0u32,
            }),
            cells@.len() > 0 ==> {
                &&& r.avg_reproduction_threshold == spec_sum_of(
                    cells@,
                    |c: SecurityCell| c.genome.reproduction_threshold,
                ) / (cells@.len() as int)
                &&& r.avg_stress_sensitivity == spec_sum_of(
                    cells@,
                    |c: SecurityCell| c.genome.stress_sensitivity,
                ) / (cells@.len() as int)
                &&& r.avg_energy_recharge == spec_sum_of(
                    cells@,
                    |c: SecurityCell| c.genome.energy_recharge,
                ) / (cells@.len() as int)
                &&& r.avg_threat_inhibitor_factor == spec_sum_of(
                    cells@,
                    |c: SecurityCell| c.genome.threat_inhibitor_factor,
                ) / (cells@.len() as int)
                &&& r.avg_isolation_threshold == spec_sum_of(
                    cells@,
                    |c: SecurityCell| c.genome.isolation_threshold,
                ) / (cells@.len() as int)
                &&& r.avg_min_trust_threshold == spec_sum_of(
                    cells@,
                    |c: SecurityCell| c.genome.min_trust_threshold,
                ) / (cells@.len() as int)
            },
    {
        let n = cells.len();
        if n == 0 {
            return PopulationStats {
                avg_reproduction_threshold: 0,
                avg_stress_sensitivity: 0,
                avg_energy_recharge: 0,
                avg_threat_inhibitor_factor: 0,
                avg_isolation_threshold: 0,
                avg_min_trust_threshold: 0,
            };
        }
        let mut sum_repro: u64 = 0;
        let mut sum_stress: u64 = 0;
        let mut sum_energy: u64 = 0;
        let mut sum_inhib: u64 = 0;
        let mut sum_iso: u64 = 0;
        let mut sum_trust: u64 = 0;
        let mut i: usize = 0;
        while i < n
            invariant
                n == cells@.len(),
                n <= u32::MAX,
                i <= n,
                sum_repro == spec_sum_of(
                    cells@.take(i as int),
                    |c: SecurityCell| c.genome.reproduction_threshold,
                ),
                sum_stress == spec_sum_of(
                    cells@.take(i as int),
                    |c: SecurityCell| c.genome.stress_sensitivity,
                ),
                sum_energy == spec_sum_of(
                    cells@.take(i as int),
                    |c: SecurityCell| c.genome.energy_recharge,
                ),
                sum_inhib == spec_sum_of(
                    cells@.take(i as int),
                    |c: SecurityCell| c.genome.threat_inhibitor_factor,
                ),
                sum_iso == spec_sum_of(
                    cells@.take(i as int),
                    |c: SecurityCell| c.genome.isolation_threshold,
                ),
                sum_trust == spec_sum_of(
                    cells@.take(i as int),
                    |c: SecurityCell| c.genome.min_trust_threshold,
                ),
            decreases n - i,
        {
            proof {
                lemma_take_sums(cells@, i as int);
                lemma_sum_of_bound(
                    cells@.take(i as int),
                    |c: SecurityCell| c.genome.reproduction_threshold,
                );
                lemma_sum_of_bound(
                    cells@.take(i as int),
                    |c: SecurityCell| c.genome.stress_sensitivity,
                );
                lemma_sum_of_bound(
                    cells@.take(i as int),
                    |c: SecurityCell| c.genome.energy_recharge,
                );
                lemma_sum_of_bound(
                    cells@.take(i as int),
                    |c: SecurityCell| c.genome.threat_inhibitor_factor,
                );
                lemma_sum_of_bound(
                    cells@.take(i as int),
                    |c: SecurityCell| c.genome.isolation_threshold,
                );
                lemma_sum_of_bound(
                    cells@.take(i as int),
                    |c: SecurityCell| c.genome.min_trust_threshold,
                );
                assert((i as int) * (u32::MAX as int) + (u32::MAX as int) <= (u32::MAX as int)
                    * (u32::MAX as int) + (u32::MAX as int)) by (nonlinear_arith)
                    requires
                        i as int <= u32::MAX as int,
                ;
            }
            sum_repro = sum_repro + (cells[i].genome.reproduction_threshold as u64);
            sum_stress = sum_stress + (cells[i].genome.stress_sensitivity as u64);
            sum_energy = sum_energy + (cells[i].genome.energy_recharge as u64);
            sum_inhib = sum_inhib + (cells[i].genome.threat_inhibitor_factor as u64);
            sum_iso = sum_iso + (cells[i].genome.isolation_threshold as u64);
            sum_trust = sum_trust + (cells[i].genome.min_trust_threshold as u64);
            i = i + 1;
        }
        proof {
            assert(cells@.take(n as int) =~= cells@);
            lemma_sum_of_bound(cells@, |c: SecurityCell| c.genome.reproduction_threshold);
            lemma_avg_fits(cells@, |c: SecurityCell| c.genome.reproduction_threshold);
            lemma_avg_fits(cells@, |c: SecurityCell| c.genome.stress_sensitivity);
            lemma_avg_fits(cells@, |c: SecurityCell| c.genome.energy_recharge);
            lemma_avg_fits(cells@, |c: SecurityCell| c.genome.threat_inhibitor_factor);
            lemma_avg_fits(cells@, |c: SecurityCell| c.genome.isolation_threshold);
            lemma_avg_fits(cells@, |c: SecurityCell| c.genome.min_trust_threshold);
        }
        let count = n as u64;
        PopulationStats {
            avg_reproduction_threshold: (sum_repro / count) as u32,
            avg_stress_sensitivity: (sum_stress / count) as u32,
            avg_energy_recharge: (sum_energy / count) as u32,
            avg_threat_inhibitor_factor: (sum_inhib / count) as u32,
            avg_isolation_threshold: (sum_iso / count) as u32,
            avg_min_trust_threshold: (sum_trust / count) as u32,
        }
    }
}

proof fn lemma_take_sums(s: Seq<SecurityCell>, i: int)
    requires
        0 <= i < s.len(),
    ensures
        forall|f: spec_fn(SecurityCell) -> u32|
            #[trigger] spec_sum_of(s.take(i + 1), f) == spec_sum_of(s.take(i), f) + f(s[i]),
{
    assert forall|f: spec_fn(SecurityCell) -> u32| #[trigger] spec_sum_of(s.take(i + 1), f)
        == spec_sum_of(s.take(i), f) + f(s[i]) by {
        assert(s.take(i + 1).drop_last() =~= s.take(i));
        assert(s.take(i + 1).last() == s[i]);
    }
}

proof fn lemma_avg_fits(s: Seq<SecurityCell>, f: spec_fn(SecurityCell) -> u32)
    requires
        s.len() > 0,
    ensures
        0 <= spec_sum_of(s, f) / (s.len() as int) <= u32::MAX,
{
    lemma_sum_of_bound(s, f);
    assert(spec_sum_of(s, f) / (s.len() as int) <= u32::MAX) by (nonlinear_arith)
        requires
            s.len() > 0,
            0 <= spec_sum_of(s, f) <= s.len() * (u32::MAX as int),
    ;
}

/// An autonomous security cell: identity, mutable state, genome and private
/// signing capability.
#[derive(Debug)]
pub struct SecurityCell {
    pub id: String,
    pub state: CellState,
    pub genome: CellGenome,
    pub tpm: TPM,
}

/// The one action a cell reports for a tick.
#[derive(Debug)]
pub enum CellAction {
    Idle,
    Replicate(String),
    Differentiate(CellLineage),
    EmitSignal(String, u32),
    Die,
    Connect(String),
    Disconnect(String),
    ReportAnomaly(String, u32, Option<String>, Option<Attestation>),
}

impl SecurityCell {
    /// A cell's state stays inside its ranges: energy within `[0, 1500]`,
    /// stress within `[0, 1000]`, trust within `[0, 1000]`, and a working
    /// signing module.
    pub open spec fn wf(self) -> bool {
        &&& self.state.energy <= 1500
        &&& self.state.stress_level <= 1000
        &&& self.tpm.wf()
        &&& forall|i: int|
            0 <= i < self.state.neighbor_trust.entries@.len()
                ==> #[trigger] self.state.neighbor_trust.entries@[i].1 <= 1000
    }

    /// Create a stem cell with full default energy and publish its
    /// verification key in `directory`.
    pub fn new(id: &str, directory: &mut PublicKeyDirectory) -> (r: SecurityCell)
        ensures
            r.wf(),
            r.id@ == id@,
            r.state.lineage == CellLineage::Stem,
            r.state.energy == 1000u32,
            r.state.stress_level == 0u32,
            !r.state.dead,
            r.state.immune_memory@.len() == 0,
            r.state.neighbor_trust.entries@.len() == 0,
            r.state.blacklist@.len() == 0,
            r.genome == spec_default_genome(),
            crate::immune::spec_lookup(final (directory).entries@, id@) == Some(
                crate::crypto::vk_of(r.tpm.secret()),
            ),
            forall|q: Seq<char>|
                q != id@ ==> #[trigger] crate::immune::spec_lookup(final (directory).entries@, q)
                    == crate::immune::spec_lookup(old(directory).entries@, q),
    {
        let id_string: String = id.to_owned();
        let tpm = TPM::new(id_string.clone(), directory);
        SecurityCell {
            id: id_string,
            state: CellState {
                lineage: CellLineage::Stem,
                energy: 1000,
                stress_level: 0,
                dead: false,
                immune_memory: Vec::new(),
                neighbor_trust: U32Table::new(),
                blacklist: Vec::new(),
            },
            genome: CellGenome::default(),
            tpm,
        }
    }
}

} // verus!

verus! {

/// The running state of the signal-aggregation pass: the trust table so far,
/// the activator/inhibitor/cooperative sums, and the attested accusation
/// votes keyed by accused identity.
pub ghost struct AggState {
    pub trust: Seq<(String, u32)>,
    pub act: u64,
    pub inh: u64,
    pub coop: u64,
    pub votes: Seq<(String, u32)>,
}

/// Whether a topic carries the consensus prefix.
pub open spec fn spec_is_consensus(t: Seq<char>) -> bool {
    "consensus:"@.len() <= t.len() && t.subrange(0, "consensus:"@.len() as int) == "consensus:"@
}

/// A trust score clamped to its upper bound.
pub open spec fn spec_trust_clamped(t: u32) -> u32 {
    if t > 1000 { 1000 } else { t }
}

/// The view of an optional identity.
pub open spec fn spec_opt_view(o: Option<String>) -> Option<Seq<char>> {
    match o {
        Some(s) => Some(s@),
        None => None,
    }
}

/// How one incoming signal changes the aggregation state. An attested
/// signal moves the source's trust up on successful verification and down
/// on failure, and an unattested signal on a consensus topic is always
/// penalised. The signal's magnitude is tallied into the activator,
/// inhibitor or cooperative sum by topic, and a verifiably attested
/// consensus signal casts a vote against its target (or, absent one, its
/// source).
pub open spec fn spec_agg_step(
    st: AggState,
    s: Signal,
    dir: Seq<(String, Vec<u8>)>,
    step: u32,
    g: CellGenome,
) -> AggState {
    {
        let payload = spec_payload(s.topic@, s.value, spec_opt_view(s.target));
        let trust1 = match s.source {
            Some(src) => {
                let t0 = spec_get_or(st.trust, src@, 500);
                match s.attestation {
                    Some(att) => {
                        if att.cell_id@ == src@ && crate::immune::spec_verify(
                            dir,
                            att@,
                            step as u64,
                            payload,
                        ) {
                            spec_put(
                                st.trust,
                                src,
                                spec_trust_clamped(spec_sat_add(t0, g.trust_reward)),
                            )
                        } else {
                            spec_put(st.trust, src, spec_sat_sub(t0, g.trust_penalty))
                        }
                    },
                    None => {
                        if spec_is_consensus(s.topic@) {
                            spec_put(st.trust, src, spec_sat_sub(t0, g.trust_penalty))
                        } else {
                            st.trust
                        }
                    },
                }
            },
            None => st.trust,
        };
        let act1 = if s.topic@ == "activator"@ {
            spec_sat_add64(st.act, s.value as u64)
        } else {
            st.act
        };
        let inh1 = if s.topic@ == "inhibitor"@ {
            spec_sat_add64(st.inh, s.value as u64)
        } else {
            st.inh
        };
        let coop1 = if s.topic@ == "cooperative"@ {
            spec_sat_add64(st.coop, s.value as u64)
        } else {
            st.coop
        };
        let votes1 = if spec_is_consensus(s.topic@) {
            match (s.source, s.attestation) {
                (Some(src), Some(att)) => {
                    if att.cell_id@ == src@ && crate::immune::spec_verify(
                        dir,
                        att@,
                        step as u64,
                        payload,
                    ) {
                        let accused = match s.target {
                            Some(t) => t,
                            None => src,
                        };
                        spec_bump(st.votes, accused, s.value)
                    } else {
                        st.votes
                    }
                },
                _ => st.votes,
            }
        } else {
            st.votes
        };
        AggState { trust: trust1, act: act1, inh: inh1, coop: coop1, votes: votes1 }
    }
}

/// The aggregation state after folding every signal, in order.
pub open spec fn spec_aggregate(
    signals: Seq<Signal>,
    init: AggState,
    dir: Seq<(String, Vec<u8>)>,
    step: u32,
    g: CellGenome,
) -> AggState
    decreases signals.len(),
{
    if signals.len() == 0 {
        init
    } else {
        spec_agg_step(spec_aggregate(signals.drop_last(), init, dir, step, g), signals.last(), dir, step, g)
    }
}

/// The aggregation state a tick starts from: the trust table pruned to the
/// detected neighbours, and empty sums and votes.
pub open spec fn spec_agg_init(c: SecurityCell, env: CellEnvironment) -> AggState {
    AggState {
        trust: spec_retain(c.state.neighbor_trust.entries@, env.detected_neighbors@),
        act: 0,
        inh: 0,
        coop: 0,
        votes: Seq::empty(),
    }
}

/// The aggregation a tick performs over its environment.
pub open spec fn spec_agg_of(
    c: SecurityCell,
    env: CellEnvironment,
    dir: Seq<(String, Vec<u8>)>,
) -> AggState {
    spec_aggregate(env.neighbor_signals@, spec_agg_init(c, env), dir, env.step, c.genome)
}

/// The first accused identity, in vote-table order, whose attested vote
/// total crosses the quarantine threshold and who is a detected neighbour.
pub open spec fn spec_first_quarantine(votes: Seq<(String, u32)>, detected: Seq<String>) -> Option<
    String,
>
    decreases votes.len(),
{
    if votes.len() == 0 {
        None
    } else if votes[0].1 > 1500 && spec_key_in(detected, votes[0].0@) {
        Some(votes[0].0)
    } else {
        spec_first_quarantine(votes.drop_first(), detected)
    }
}

/// The first detected neighbour, in detection order, whose trust is below
/// the genome's threshold.
pub open spec fn spec_first_untrusted(
    trust: Seq<(String, u32)>,
    detected: Seq<String>,
    min_trust: u32,
) -> Option<String>
    decreases detected.len(),
{
    if detected.len() == 0 {
        None
    } else if spec_get_or(trust, detected[0]@, 500) < min_trust {
        Some(detected[0])
    } else {
        spec_first_untrusted(trust, detected.drop_first(), min_trust)
    }
}

/// The source and magnitude of the strongest attributed activator signal,
/// later signals winning ties.
pub open spec fn spec_accused_best(signals: Seq<Signal>) -> Option<(String, u32)>
    decreases signals.len(),
{
    if signals.len() == 0 {
        None
    } else {
        let prev = spec_accused_best(signals.drop_last());
        let s = signals.last();
        match s.source {
            Some(src) => {
                if s.topic@ == "activator"@ {
                    match prev {
                        None => Some((src, s.value)),
                        Some(p) => if s.value >= p.1 {
                            Some((src, s.value))
                        } else {
                            prev
                        },
                    }
                } else {
                    prev
                }
            },
            None => prev,
        }
    }
}

/// The accused identity an anomaly report names.
pub open spec fn spec_accused_src(signals: Seq<Signal>) -> Option<String> {
    match spec_accused_best(signals) {
        Some(p) => Some(p.0),
        None => None,
    }
}

/// Whether immune memory already holds an activator event from the last 50
/// steps.
pub open spec fn spec_recent_match(mem: Seq<ThreatEvent>, step: u32) -> bool {
    exists|i: int|
        0 <= i < mem.len() && #[trigger] mem[i].topic@ == "activator"@ && spec_sat_sub32(
            step,
            mem[i].step,
        ) < 50
}

pub open spec fn spec_sat_sub32(a: u32, b: u32) -> u32 {
    if a >= b { (a - b) as u32 } else { 0 }
}

/// Effective threat: local threat plus the activator sum, less the inhibitor
/// sum scaled by the genome's inhibitor factor, floored at zero.
pub open spec fn spec_effective_threat(local: u32, act: u64, inh: u64, tif: u32) -> u64 {
    let base = spec_sat_add64(local as u64, act);
    let drain = spec_mul_milli64(inh, tif);
    if drain >= base {
        0
    } else {
        (base - drain) as u64
    }
}

/// Stress after a tick: decayed and driven by the effective threat, clamped
/// to `[0, 1000]`.
pub open spec fn spec_new_stress(stress: u32, g: CellGenome, et: u64) -> u32 {
    let s = spec_sat_add64(
        spec_mul_milli(stress, g.stress_decay) as u64,
        spec_mul_milli64(et, g.stress_sensitivity),
    );
    if s > 1000 {
        1000
    } else {
        s as u32
    }
}

/// Energy after a tick: recharged, drained by the effective threat and by
/// inhibition, clamped to `[0, 1500]`.
pub open spec fn spec_new_energy(energy: u32, g: CellGenome, et: u64, inh: u64) -> u32 {
    let gains = (energy + g.energy_recharge) as u64;
    let losses = spec_sat_add64(
        spec_mul_milli64(et, g.energy_threat_drain),
        spec_mul_milli64(inh, g.energy_inhibitor_drain),
    );
    if losses >= gains {
        0
    } else if gains - losses > 1500 {
        1500
    } else {
        (gains - losses) as u32
    }
}

/// Whether the anomaly-detection branch of the ladder fires.
pub open spec fn spec_anomaly_fires(c: SecurityCell, et: u64, inh: u64) -> bool {
    &&& c.state.lineage == CellLineage::IntrusionDetection
    &&& et > c.genome.anomaly_sensitivity as u64
    &&& inh < 200
}

} // verus!

verus! {

/// What one tick does, as a relation between the cell before (`c`) and
/// after (`f`) and the action returned (`r`). The trust table is always
/// pruned and updated by the aggregation pass, and stress and energy are
/// always recomputed from the effective threat. Then, in priority order:
/// death on exhausted energy, a quarantine disconnect on crossing
/// accusation votes, a disconnect from an untrusted neighbour, an isolation
/// disconnect under extreme stress, an anomaly report (for the
/// intrusion-detection lineage), replication, differentiation, signal
/// emission, or idling.
pub open spec fn spec_tick_post(
    c: SecurityCell,
    env: CellEnvironment,
    dir: Seq<(String, Vec<u8>)>,
    f: SecurityCell,
    r: CellAction,
) -> bool {
    let agg = spec_agg_of(c, env, dir);
    let g = c.genome;
    let et = spec_effective_threat(
        env.local_threat_score,
        agg.act,
        agg.inh,
        g.threat_inhibitor_factor,
    );
    let stress1 = spec_new_stress(c.state.stress_level, g, et);
    let energy1 = spec_new_energy(c.state.energy, g, et, agg.inh);
    &&& f.id == c.id
    &&& f.tpm == c.tpm
    &&& f.state.lineage == c.state.lineage
    &&& f.state.dead == c.state.dead
    &&& f.state.blacklist == c.state.blacklist
    &&& f.state.neighbor_trust.entries@ == agg.trust
    &&& f.state.stress_level == stress1
    &&& if energy1 <= 10 {
        &&& r == CellAction::Die
        &&& f.state.energy == energy1
        &&& f.state.immune_memory == c.state.immune_memory
        &&& f.genome == g
    } else {
        match spec_first_quarantine(agg.votes, env.detected_neighbors@) {
            Some(q) => {
                &&& r == CellAction::Disconnect(q)
                &&& f.state.energy == energy1
                &&& f.state.immune_memory == c.state.immune_memory
                &&& f.genome == g
            },
            None => match spec_first_untrusted(
                agg.trust,
                env.detected_neighbors@,
                g.min_trust_threshold,
            ) {
                Some(u) => {
                    &&& r == CellAction::Disconnect(u)
                    &&& f.state.energy == energy1
                    &&& f.state.immune_memory == c.state.immune_memory
                    &&& f.genome == g
                },
                None => {
                    if stress1 > g.isolation_threshold && env.detected_neighbors@.len() > 0 {
                        &&& r == CellAction::Disconnect(env.detected_neighbors@[0])
                        &&& f.state.energy == energy1
                        &&& f.state.immune_memory == c.state.immune_memory
                        &&& f.genome == g
                    } else if spec_anomaly_fires(c, et, agg.inh) {
                        &&& f.state.energy == energy1
                        &&& if spec_recent_match(c.state.immune_memory@, env.step) {
                            &&& f.state.immune_memory == c.state.immune_memory
                            &&& f.genome == g
                        } else {
                            &&& f.state.immune_memory@.len() == c.state.immune_memory@.len() + 1
                            &&& f.state.immune_memory@.take(c.state.immune_memory@.len() as int)
                                == c.state.immune_memory@
                            &&& f.state.immune_memory@.last().step == env.step
                            &&& f.state.immune_memory@.last().topic@ == "activator"@
                            &&& f.state.immune_memory@.last().magnitude == spec_cap32(et)
                            &&& f.state.immune_memory@.last().confidence == 800
                            &&& f.genome == spec_adapted(g, f.state.immune_memory@.last())
                        }
                        &&& match r {
                            CellAction::ReportAnomaly(topic, conf, accused, att) => {
                                &&& topic@ == "activator"@
                                &&& conf == spec_cap32(et)
                                &&& accused == spec_accused_src(env.neighbor_signals@)
                                &&& spec_attest_result(
                                    c.tpm,
                                    env.step as u64,
                                    spec_payload(
                                        "consensus:activator"@,
                                        spec_cap32(et),
                                        spec_opt_view(accused),
                                    ),
                                    att,
                                )
                            },
                            _ => false,
                        }
                    } else if et >= g.reproduction_threshold as u64 && energy1
                        >= g.reproduction_energy_min {
                        &&& f.state.energy == spec_sat_sub(energy1, g.reproduction_energy_cost)
                        &&& f.state.immune_memory == c.state.immune_memory
                        &&& f.genome == g
                        &&& match r {
                            CellAction::Replicate(child) => child@ == c.id@ + "::child"@,
                            _ => false,
                        }
                    } else {
                        &&& f.state.energy == energy1
                        &&& f.state.immune_memory == c.state.immune_memory
                        &&& f.genome == g
                        &&& if stress1 >= g.stress_differentiation_threshold && c.state.lineage
                            != CellLineage::IntrusionDetection {
                            r == CellAction::Differentiate(CellLineage::IntrusionDetection)
                        } else if agg.inh >= g.healer_inhibitor_threshold as u64 && stress1
                            <= g.healer_stress_limit && c.state.lineage != CellLineage::Healer {
                            r == CellAction::Differentiate(CellLineage::Healer)
                        } else if agg.coop >= g.encryption_cooperative_threshold as u64 && energy1
                            >= g.encryption_energy_min && c.state.lineage
                            != CellLineage::Encryption {
                            r == CellAction::Differentiate(CellLineage::Encryption)
                        } else if et >= g.signal_emission_threshold as u64 {
                            match r {
                                CellAction::EmitSignal(topic, v) => {
                                    &&& topic@ == "activator"@
                                    &&& v == spec_cap32(et)
                                },
                                _ => false,
                            }
                        } else {
                            r == CellAction::Idle
                        }
                    }
                },
            },
        }
    }
}

proof fn lemma_get_or_bound(s: Seq<(String, u32)>, k: Seq<char>, d: u32)
    requires
        forall|i: int| 0 <= i < s.len() ==> #[trigger] s[i].1 <= 1000,
        d <= 1000,
    ensures
        spec_get_or(s, k, d) <= 1000,
    decreases s.len(),
{
    if s.len() == 0 {
    } else if s[0].0@ == k {
    } else {
        lemma_get_or_bound(s.drop_first(), k, d);
    }
}

proof fn lemma_put_bound(s: Seq<(String, u32)>, k: String, v: u32)
    requires
        forall|i: int| 0 <= i < s.len() ==> #[trigger] s[i].1 <= 1000,
        v <= 1000,
    ensures
        forall|i: int|
            0 <= i < spec_put(s, k, v).len() ==> #[trigger] spec_put(s, k, v)[i].1 <= 1000,
    decreases s.len(),
{
    if s.len() == 0 {
    } else if s[0].0@ == k@ {
    } else {
        lemma_put_bound(s.drop_first(), k, v);
        assert forall|i: int| 0 <= i < spec_put(s, k, v).len() implies #[trigger] spec_put(
            s,
            k,
            v,
        )[i].1 <= 1000 by {
            if i > 0 {
                assert(spec_put(s, k, v)[i] == spec_put(s.drop_first(), k, v)[i - 1]);
            }
        }
    }
}

proof fn lemma_retain_bound(s: Seq<(String, u32)>, keys: Seq<String>)
    requires
        forall|i: int| 0 <= i < s.len() ==> #[trigger] s[i].1 <= 1000,
    ensures
        forall|i: int|
            0 <= i < spec_retain(s, keys).len() ==> #[trigger] spec_retain(s, keys)[i].1 <= 1000,
    decreases s.len(),
{
    if s.len() == 0 {
    } else {
        assert(forall|i: int|
            0 <= i < s.drop_last().len() ==> #[trigger] s.drop_last()[i].1 <= 1000);
        lemma_retain_bound(s.drop_last(), keys);
        if spec_key_in(keys, s.last().0@) {
            assert forall|i: int| 0 <= i < spec_retain(s, keys).len() implies #[trigger] spec_retain(
                s,
                keys,
            )[i].1 <= 1000 by {
                if i < spec_retain(s.drop_last(), keys).len() {
                    assert(spec_retain(s, keys)[i] == spec_retain(s.drop_last(), keys)[i]);
                } else {
                    assert(spec_retain(s, keys)[i] == s.last());
                }
            }
        }
    }
}

proof fn lemma_agg_step_bound(
    st: AggState,
    s: Signal,
    dir: Seq<(String, Vec<u8>)>,
    step: u32,
    g: CellGenome,
)
    requires
        forall|i: int| 0 <= i < st.trust.len() ==> #[trigger] st.trust[i].1 <= 1000,
    ensures
        forall|i: int|
            0 <= i < spec_agg_step(st, s, dir, step, g).trust.len()
                ==> #[trigger] spec_agg_step(st, s, dir, step, g).trust[i].1 <= 1000,
{
    match s.source {
        Some(src) => {
            lemma_get_or_bound(st.trust, src@, 500);
            let t0 = spec_get_or(st.trust, src@, 500);
            lemma_put_bound(st.trust, src, spec_trust_clamped(spec_sat_add(t0, g.trust_reward)));
            lemma_put_bound(st.trust, src, spec_sat_sub(t0, g.trust_penalty));
        },
        None => {},
    }
}

proof fn lemma_aggregate_bound(
    signals: Seq<Signal>,
    init: AggState,
    dir: Seq<(String, Vec<u8>)>,
    step: u32,
    g: CellGenome,
)
    requires
        forall|i: int| 0 <= i < init.trust.len() ==> #[trigger] init.trust[i].1 <= 1000,
    ensures
        forall|i: int|
            0 <= i < spec_aggregate(signals, init, dir, step, g).trust.len()
                ==> #[trigger] spec_aggregate(signals, init, dir, step, g).trust[i].1 <= 1000,
    decreases signals.len(),
{
    if signals.len() == 0 {
    } else {
        lemma_aggregate_bound(signals.drop_last(), init, dir, step, g);
        lemma_agg_step_bound(
            spec_aggregate(signals.drop_last(), init, dir, step, g),
            signals.last(),
            dir,
            step,
            g,
        );
    }
}

} // verus!

verus! {

proof fn lemma_opt_deep_view(o: Option<String>)
    ensures
        o.deep_view() == spec_opt_view(o),
{
    match o {
        Some(s) => {
            assert(o.deep_view() == Some(s@));
        },
        None => {
            assert(o.deep_view() == Option::<Seq<char>>::None);
        },
    }
}

/// The first accused identity whose attested votes cross the quarantine
/// threshold and who is a detected neighbour.
fn first_quarantine(votes: &U32Table, detected: &Vec<String>) -> (r: Option<String>)
    ensures
        r == spec_first_quarantine(votes.entries@, detected@),
{
    let n = votes.len();
    let mut i: usize = 0;
    proof {
        assert(votes.entries@.skip(0) =~= votes.entries@);
    }
    while i < n
        invariant
            n == votes.entries@.len(),
            i <= n,
            spec_first_quarantine(votes.entries@, detected@) == spec_first_quarantine(
                votes.entries@.skip(i as int),
                detected@,
            ),
        decreases n - i,
    {
        proof {
            assert(votes.entries@.skip(i as int).drop_first() =~= votes.entries@.skip(
                i as int + 1,
            ));
            assert(votes.entries@.skip(i as int)[0] == votes.entries@[i as int]);
        }
        if votes.entries[i].1 > 1500 && contains_str(detected, votes.entries[i].0.as_str()) {
            return Some(votes.entries[i].0.clone());
        }
        i = i + 1;
    }
    None
}

/// The first detected neighbour whose trust sits below `min_trust`.
fn first_untrusted(trust: &U32Table, detected: &Vec<String>, min_trust: u32) -> (r: Option<
    String,
>)
    ensures
        r == spec_first_untrusted(trust.entries@, detected@, min_trust),
{
    let n = detected.len();
    let mut i: usize = 0;
    proof {
        assert(detected@.skip(0) =~= detected@);
    }
    while i < n
        invariant
            n == detected@.len(),
            i <= n,
            spec_first_untrusted(trust.entries@, detected@, min_trust) == spec_first_untrusted(
                trust.entries@,
                detected@.skip(i as int),
                min_trust,
            ),
        decreases n - i,
    {
        proof {
            assert(detected@.skip(i as int).drop_first() =~= detected@.skip(i as int + 1));
            assert(detected@.skip(i as int)[0] == detected@[i as int]);
        }
        if trust.get_or(detected[i].as_str(), 500) < min_trust {
            return Some(detected[i].clone());
        }
        i = i + 1;
    }
    None
}

/// Whether immune memory holds an activator event from the last 50 steps.
fn find_recent_match(mem: &Vec<ThreatEvent>, step: u32) -> (r: bool)
    ensures
        r == spec_recent_match(mem@, step),
{
    let n = mem.len();
    let mut i: usize = 0;
    let mut found = false;
    while i < n
        invariant
            n == mem@.len(),
            i <= n,
            found == exists|j: int|
                0 <= j < i && #[trigger] mem@[j].topic@ == "activator"@ && spec_sat_sub32(
                    step,
                    mem@[j].step,
                ) < 50,
        decreases n - i,
    {
        let mut hit = false;
        if str_eq(mem[i].topic.as_str(), "activator") {
            let diff: u32 = if step >= mem[i].step {
                step - mem[i].step
            } else {
                0
            };
            if diff < 50 {
                hit = true;
            }
        }
        if hit {
            found = true;
        }
        i = i + 1;
    }
    found
}

/// The source of the strongest attributed activator signal, later signals
/// winning ties.
fn find_accused(signals: &Vec<Signal>) -> (r: Option<String>)
    ensures
        r == spec_accused_src(signals@),
{
    let mut best_src: Option<String> = None;
    let mut best_val: u32 = 0;
    let n = signals.len();
    let mut i: usize = 0;
    while i < n
        invariant
            n == signals@.len(),
            i <= n,
            match spec_accused_best(signals@.take(i as int)) {
                None => best_src is None,
                Some(p) => best_src == Some(p.0) && best_val == p.1,
            },
        decreases n - i,
    {
        proof {
            assert(signals@.take(i as int + 1).drop_last() =~= signals@.take(i as int));
            assert(signals@.take(i as int + 1).last() == signals@[i as int]);
        }
        let sref = &signals[i];
        match &sref.source {
            Some(src) => {
                if str_eq(sref.topic.as_str(), "activator") {
                    let replace = match &best_src {
                        None => true,
                        Some(_) => sref.value >= best_val,
                    };
                    if replace {
                        best_src = Some(src.clone());
                        best_val = sref.value;
                    }
                }
            },
            None => {},
        }
        i = i + 1;
    }
    proof {
        assert(signals@.take(n as int) =~= signals@);
    }
    best_src
}

impl SecurityCell {
    /// One decision tick against a snapshot of the environment. The trust
    /// table is pruned to the detected neighbours and updated by every
    /// visible signal; stress and energy are always recomputed and stay
    /// inside their ranges; exactly one action comes back, chosen by the
    /// priority ladder of `spec_tick_post`. The cell reports `Die` exactly
    /// when its recomputed energy falls to the threshold of one hundredth
    /// of a unit.
    #[verifier::rlimit(100)]
    pub fn tick(&mut self, environment: &CellEnvironment, directory: &PublicKeyDirectory) -> (r:
        CellAction)
        requires
            old(self).wf(),
        ensures
            final (self).wf(),
            spec_tick_post(*old(self), *environment, directory.entries@, *final (self), r),
            (r is Die) <==> spec_new_energy(
                old(self).state.energy,
                old(self).genome,
                spec_effective_threat(
                    environment.local_threat_score,
                    spec_agg_of(*old(self), *environment, directory.entries@).act,
                    spec_agg_of(*old(self), *environment, directory.entries@).inh,
                    old(self).genome.threat_inhibitor_factor,
                ),
                spec_agg_of(*old(self), *environment, directory.entries@).inh,
            ) <= 10,
    {
        let ghost c0 = *self;
        let ghost dirv = directory.entries@;
        let ghost g = self.genome;
        let ghost sigs = environment.neighbor_signals@;
        let ghost det = environment.detected_neighbors@;

        self.state.neighbor_trust.retain_keys(&environment.detected_neighbors);
        let ghost init = spec_agg_init(c0, *environment);

        let mut act_sum: u64 = 0;
        let mut inh_sum: u64 = 0;
        let mut coop_sum: u64 = 0;
        let mut votes = U32Table::new();
        let n = environment.neighbor_signals.len();
        let mut i: usize = 0;
        proof {
            assert(sigs.take(0) =~= Seq::<Signal>::empty());
        }
        while i < n
            invariant
                n == sigs.len(),
                i <= n,
                sigs == environment.neighbor_signals@,
                det == environment.detected_neighbors@,
                dirv == directory.entries@,
                c0 == *old(self),
                g == c0.genome,
                init == spec_agg_init(c0, *environment),
                self.genome == g,
                self.id == c0.id,
                self.tpm == c0.tpm,
                self.state.lineage == c0.state.lineage,
                self.state.energy == c0.state.energy,
                self.state.stress_level == c0.state.stress_level,
                self.state.dead == c0.state.dead,
                self.state.immune_memory == c0.state.immune_memory,
                self.state.blacklist == c0.state.blacklist,
                self.state.neighbor_trust.entries@ == spec_aggregate(
                    sigs.take(i as int),
                    init,
                    dirv,
                    environment.step,
                    g,
                ).trust,
                act_sum == spec_aggregate(sigs.take(i as int), init, dirv, environment.step, g).act,
                inh_sum == spec_aggregate(sigs.take(i as int), init, dirv, environment.step, g).inh,
                coop_sum == spec_aggregate(
                    sigs.take(i as int),
                    init,
                    dirv,
                    environment.step,
                    g,
                ).coop,
                votes.entries@ == spec_aggregate(
                    sigs.take(i as int),
                    init,
                    dirv,
                    environment.step,
                    g,
                ).votes,
            decreases n - i,
        {
            let ghost pre = spec_aggregate(sigs.take(i as int), init, dirv, environment.step, g);
            proof {
                assert(sigs.take(i as int + 1).drop_last() =~= sigs.take(i as int));
                assert(sigs.take(i as int + 1).last() == sigs[i as int]);
                lemma_opt_deep_view(sigs[i as int].target);
            }
            let sref = &environment.neighbor_signals[i];
            {
                match &sref.source {
                    Some(src) => {
                        let t0 = self.state.neighbor_trust.get_or(src.as_str(), 500);
                        match &sref.attestation {
                            Some(att) => {
                                let payload = signal_payload(
                                    sref.topic.as_str(),
                                    sref.value,
                                    &sref.target,
                                );
                                let ok = str_eq(att.cell_id.as_str(), src.as_str())
                                    && TPM::verify(
                                    directory,
                                    att,
                                    environment.step as u64,
                                    payload.as_str(),
                                );
                                if ok {
                                    let bumped = sat_add(t0, self.genome.trust_reward);
                                    let capped = if bumped > 1000 {
                                        1000
                                    } else {
                                        bumped
                                    };
                                    self.state.neighbor_trust.put(src, capped);
                                } else {
                                    let dropped = sat_sub(t0, self.genome.trust_penalty);
                                    self.state.neighbor_trust.put(src, dropped);
                                }
                            },
                            None => {
                                if crate::strutil::has_prefix(sref.topic.as_str(), "consensus:") {
                                    let dropped = sat_sub(t0, self.genome.trust_penalty);
                                    self.state.neighbor_trust.put(src, dropped);
                                }
                            },
                        }
                    },
                    None => {},
                }
                if str_eq(sref.topic.as_str(), "activator") {
                    act_sum = sat_add64(act_sum, sref.value as u64);
                }
                if str_eq(sref.topic.as_str(), "inhibitor") {
                    inh_sum = sat_add64(inh_sum, sref.value as u64);
                }
                if str_eq(sref.topic.as_str(), "cooperative") {
                    coop_sum = sat_add64(coop_sum, sref.value as u64);
                }
                if crate::strutil::has_prefix(sref.topic.as_str(), "consensus:") {
                    match (&sref.source, &sref.attestation) {
                        (Some(src), Some(att)) => {
                            let payload = signal_payload(
                                sref.topic.as_str(),
                                sref.value,
                                &sref.target,
                            );
                            if str_eq(att.cell_id.as_str(), src.as_str()) && TPM::verify(
                                directory,
                                att,
                                environment.step as u64,
                                payload.as_str(),
                            ) {
                                let accused: String = match &sref.target {
                                    Some(t) => t.clone(),
                                    None => src.clone(),
                                };
                                votes.bump(&accused, sref.value);
                            }
                        },
                        _ => {},
                    }
                }
            }
            proof {
                let post = spec_agg_step(pre, sigs[i as int], dirv, environment.step, g);
                assert(self.state.neighbor_trust.entries@ == post.trust);
                assert(act_sum == post.act);
                assert(inh_sum == post.inh);
                assert(coop_sum == post.coop);
                assert(votes.entries@ == post.votes);
            }
            i = i + 1;
        }
        proof {
            assert(sigs.take(n as int) =~= sigs);
        }
        let ghost agg = spec_agg_of(c0, *environment, dirv);
        proof {
            assert(forall|j: int|
                0 <= j < c0.state.neighbor_trust.entries@.len()
                    ==> #[trigger] c0.state.neighbor_trust.entries@[j].1 <= 1000);
            lemma_retain_bound(c0.state.neighbor_trust.entries@, det);
            lemma_aggregate_bound(sigs, init, dirv, environment.step, g);
        }

        let base = sat_add64(environment.local_threat_score as u64, act_sum);
        let drain = mul_milli64(inh_sum, self.genome.threat_inhibitor_factor);
        let et: u64 = if drain >= base {
            0
        } else {
            base - drain
        };
        proof {
            assert(et == spec_effective_threat(
                environment.local_threat_score,
                agg.act,
                agg.inh,
                g.threat_inhibitor_factor,
            ));
        }

        let s1 = mul_milli(self.state.stress_level, self.genome.stress_decay);
        let s2 = mul_milli64(et, self.genome.stress_sensitivity);
        let ssum = sat_add64(s1 as u64, s2);
        self.state.stress_level = if ssum > 1000 {
            1000
        } else {
            ssum as u32
        };
        proof {
            assert(self.state.stress_level == spec_new_stress(c0.state.stress_level, g, et));
        }

        let gains: u64 = (self.state.energy as u64) + (self.genome.energy_recharge as u64);
        let l1 = mul_milli64(et, self.genome.energy_threat_drain);
        let l2 = mul_milli64(inh_sum, self.genome.energy_inhibitor_drain);
        let losses = sat_add64(l1, l2);
        let new_energy: u32 = if losses >= gains {
            0
        } else if gains - losses > 1500 {
            1500
        } else {
            (gains - losses) as u32
        };
        self.state.energy = new_energy;
        proof {
            assert(new_energy == spec_new_energy(c0.state.energy, g, et, agg.inh));
        }

        if new_energy <= 10 {
            return CellAction::Die;
        }

        match first_quarantine(&votes, &environment.detected_neighbors) {
            Some(q) => {
                return CellAction::Disconnect(q);
            },
            None => {},
        }
        match first_untrusted(
            &self.state.neighbor_trust,
            &environment.detected_neighbors,
            self.genome.min_trust_threshold,
        ) {
            Some(u) => {
                return CellAction::Disconnect(u);
            },
            None => {},
        }

        if self.state.stress_level > self.genome.isolation_threshold
            && environment.detected_neighbors.len() > 0 {
            return CellAction::Disconnect(environment.detected_neighbors[0].clone());
        }

        let is_intrusion = self.state.lineage == CellLineage::IntrusionDetection;
        if is_intrusion && et > self.genome.anomaly_sensitivity as u64 && inh_sum < 200 {
            let recent = find_recent_match(&self.state.immune_memory, environment.step);
            if !recent {
                let ghost mem_before = self.state.immune_memory@;
                let magnitude = cap32(et);
                let topic_string: String = "activator".to_owned();
                let event = ThreatEvent {
                    step: environment.step,
                    topic: topic_string,
                    magnitude,
                    confidence: 800,
                };
                self.genome.adapt_to_event(&event);
                self.state.immune_memory.push(event);
                proof {
                    assert(self.state.immune_memory@.take(mem_before.len() as int)
                        =~= mem_before);
                }
            }
            let accused = find_accused(&environment.neighbor_signals);
            let conf = cap32(et);
            let payload = signal_payload("consensus:activator", conf, &accused);
            let attestation = self.tpm.attest(environment.step as u64, payload.as_str());
            proof {
                lemma_opt_deep_view(accused);
            }
            return CellAction::ReportAnomaly("activator".to_owned(), conf, accused, attestation);
        }

        if et >= self.genome.reproduction_threshold as u64 && self.state.energy
            >= self.genome.reproduction_energy_min {
            self.state.energy = sat_sub(self.state.energy, self.genome.reproduction_energy_cost);
            let child = str_concat(self.id.as_str(), "::child");
            return CellAction::Replicate(child);
        }

        if self.state.stress_level >= self.genome.stress_differentiation_threshold
            && !(self.state.lineage == CellLineage::IntrusionDetection) {
            return CellAction::Differentiate(CellLineage::IntrusionDetection);
        }

        if inh_sum >= self.genome.healer_inhibitor_threshold as u64 && self.state.stress_level
            <= self.genome.healer_stress_limit && !(self.state.lineage == CellLineage::Healer) {
            return CellAction::Differentiate(CellLineage::Healer);
        }

        if coop_sum >= self.genome.encryption_cooperative_threshold as u64 && self.state.energy
            >= self.genome.encryption_energy_min && !(self.state.lineage
            == CellLineage::Encryption) {
            return CellAction::Differentiate(CellLineage::Encryption);
        }

        if et >= self.genome.signal_emission_threshold as u64 {
            return CellAction::EmitSignal("activator".to_owned(), cap32(et));
        }

        CellAction::Idle
    }
}

} // verus!
