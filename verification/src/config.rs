//! Scenario configuration: the threat profile, spikes, topology selection
//! and run length that drive one simulation.

use vstd::prelude::*;

use crate::adversarial::Mutation;
use crate::millis::{sat_add, spec_sat_add};
use crate::signaling::{Signal, SignalView};
use crate::strutil::{chars_of, string_from_chars};

verus! {

/// Background threat and the threshold past which a spike is injected as an
/// activator signal, in milli-units.
#[derive(Debug, Clone, Copy, PartialEq, Eq, Structural)]
pub struct ThreatProfile {
    pub background_threat: u32,
    pub spike_threshold: u32,
}

impl Default for ThreatProfile {
    fn default() -> (r: ThreatProfile)
        ensures
            r.background_threat == default_background_threat_value(),
            r.spike_threshold == default_spike_threshold_value(),
    {
        ThreatProfile { background_threat: 100, spike_threshold: 800 }
    }
}

/// A threat spike: added intensity at one step, in milli-units.
#[derive(Debug, Clone, Copy, PartialEq, Eq, Structural)]
pub struct ThreatSpike {
    pub step: u32,
    pub intensity: u32,
}

/// How signals are delivered: global broadcast, or an explicit neighbour
/// graph.
#[derive(Debug, Clone, Copy, PartialEq, Eq, Structural)]
pub enum TopologyStrategy {
    Global,
    Graph,
}

#[derive(Debug, Clone, Copy, PartialEq, Eq, Structural)]
pub struct TopologyConfig {
    pub strategy: TopologyStrategy,
}

/// A scenario descriptor: name, initial population, run length, threat
/// profile and spikes, topology, and the reproduction-rate multiplier in
/// milli-units.
#[derive(Debug)]
pub struct ScenarioConfig {
    pub scenario_name: String,
    pub initial_cell_count: usize,
    pub simulation_steps: u32,
    pub threat_profile: ThreatProfile,
    pub spikes: Vec<ThreatSpike>,
    pub topology: TopologyConfig,
    pub cell_reproduction_rate: u32,
}

pub open spec fn default_background_threat_value() -> u32 {
    100
}

pub open spec fn default_spike_threshold_value() -> u32 {
    800
}

/// The default scenario name.
pub fn default_scenario_name() -> (r: String)
    ensures
        r@ == "baseline"@,
{
    "baseline".to_owned()
}

/// The default initial population size.
pub fn default_initial_cells() -> (r: usize)
    ensures
        r == 1usize,
{
    1
}

/// The default number of simulation steps.
pub fn default_simulation_steps() -> (r: u32)
    ensures
        r == 1u32,
{
    1
}

/// The default background threat, in milli-units.
pub fn default_background_threat() -> (r: u32)
    ensures
        r == default_background_threat_value(),
{
    100
}

/// The default spike threshold, in milli-units.
pub fn default_spike_threshold() -> (r: u32)
    ensures
        r == default_spike_threshold_value(),
{
    800
}

impl Default for ScenarioConfig {
    fn default() -> (r: ScenarioConfig)
        ensures
            r.scenario_name@ == "baseline"@,
            r.initial_cell_count == 1usize,
            r.simulation_steps == 1u32,
            r.threat_profile.background_threat == default_background_threat_value(),
            r.threat_profile.spike_threshold == default_spike_threshold_value(),
            r.spikes@.len() == 0,
            r.topology.strategy == TopologyStrategy::Global,
            r.cell_reproduction_rate == 1000u32,
    {
        ScenarioConfig {
            scenario_name: default_scenario_name(),
            initial_cell_count: 1,
            simulation_steps: 1,
            threat_profile: ThreatProfile::default(),
            spikes: Vec::new(),
            topology: TopologyConfig { strategy: TopologyStrategy::Global },
            cell_reproduction_rate: 1000,
        }
    }
}

/// The background threat plus every spike scheduled for `step`, saturating.
pub open spec fn spec_threat_level(bg: u32, spikes: Seq<ThreatSpike>, step: u32) -> u32
    decreases spikes.len(),
{
    if spikes.len() == 0 {
        bg
    } else {
        let rest = spec_threat_level(bg, spikes.drop_last(), step);
        if spikes.last().step == step {
            spec_sat_add(rest, spikes.last().intensity)
        } else {
            rest
        }
    }
}

impl ScenarioConfig {
    /// The threat score for one step: the background plus every spike
    /// scheduled there.
    pub fn threat_level_for_step(&self, step: u32) -> (r: u32)
        ensures
            r == spec_threat_level(self.threat_profile.background_threat, self.spikes@, step),
    {
        let mut threat = self.threat_profile.background_threat;
        let n = self.spikes.len();
        let mut i: usize = 0;
        while i < n
            invariant
                n == self.spikes@.len(),
                i <= n,
                threat == spec_threat_level(
                    self.threat_profile.background_threat,
                    self.spikes@.take(i as int),
                    step,
                ),
            decreases n - i,
        {
            proof {
                assert(self.spikes@.take(i as int + 1).drop_last() =~= self.spikes@.take(
                    i as int,
                ));
                assert(self.spikes@.take(i as int + 1).last() == self.spikes@[i as int]);
            }
            if self.spikes[i].step == step {
                threat = sat_add(threat, self.spikes[i].intensity);
            }
            i = i + 1;
        }
        proof {
            assert(self.spikes@.take(n as int) =~= self.spikes@);
        }
        threat
    }

    /// The activator injection a step triggers: when the step's threat
    /// level crosses the spike threshold, the scenario publishes it as an
    /// unattributed broadcast activator signal; otherwise nothing.
    pub fn spike_signal_for_step(&self, step: u32) -> (r: Option<Signal>)
        ensures
            ({
                let threat = spec_threat_level(
                    self.threat_profile.background_threat,
                    self.spikes@,
                    step,
                );
                match r {
                    Some(signal) => threat >= self.threat_profile.spike_threshold && signal@
                        == (SignalView {
                        topic: "activator"@,
                        value: threat,
                        source: None,
                        target: None,
                        attestation: None,
                    }),
                    None => threat < self.threat_profile.spike_threshold,
                }
            }),
    {
        let threat = self.threat_level_for_step(step);
        if threat >= self.threat_profile.spike_threshold {
            Some(
                Signal {
                    topic: "activator".to_owned(),
                    value: threat,
                    source: None,
                    target: None,
                    attestation: None,
                },
            )
        } else {
            None
        }
    }

    /// Apply a scenario-level mutation: a new spike is appended, a retimed
    /// spike moves by index, and stimulus-scaling mutations belong to the
    /// schedule and leave the scenario alone.
    pub fn apply_mutation(&mut self, mutation: &Mutation)
        ensures
            final (self).scenario_name == old(self).scenario_name,
            final (self).initial_cell_count == old(self).initial_cell_count,
            final (self).simulation_steps == old(self).simulation_steps,
            final (self).threat_profile == old(self).threat_profile,
            final (self).topology == old(self).topology,
            final (self).cell_reproduction_rate == old(self).cell_reproduction_rate,
            match *mutation {
                Mutation::AddSpike { step, intensity } => final (self).spikes@ == old(
                    self,
                ).spikes@.push(ThreatSpike { step, intensity }),
                Mutation::ChangeEventTiming { event_index, new_step } => {
                    if event_index < old(self).spikes@.len() {
                        final (self).spikes@ == old(self).spikes@.update(
                            event_index as int,
                            ThreatSpike {
                                step: new_step,
                                intensity: old(self).spikes@[event_index as int].intensity,
                            },
                        )
                    } else {
                        final (self).spikes@ == old(self).spikes@
                    }
                },
                _ => final (self).spikes@ == old(self).spikes@,
            },
    {
        match mutation {
            Mutation::AddSpike { step, intensity } => {
                self.spikes.push(ThreatSpike { step: *step, intensity: *intensity });
            },
            Mutation::ChangeEventTiming { event_index, new_step } => {
                if *event_index < self.spikes.len() {
                    let intensity = self.spikes[*event_index].intensity;
                    self.spikes[*event_index] = ThreatSpike { step: *new_step, intensity };
                }
            },
            _ => {},
        }
    }
}

/// A seed scenario handed on the command line: an identifier and the
/// scenario it points at.
#[derive(Debug, PartialEq)]
pub struct SeedCandidate {
    pub id: String,
    pub scenario: String,
}

/// The first position of `c` in `s`, or `-1` where it never occurs.
pub open spec fn spec_first_pos(s: Seq<char>, c: char) -> int
    decreases s.len(),
{
    if s.len() == 0 {
        -1
    } else if s[0] == c {
        0
    } else if spec_first_pos(s.drop_first(), c) == -1 {
        -1
    } else {
        1 + spec_first_pos(s.drop_first(), c)
    }
}

/// Whether every character is an ASCII space, tab or line break.
pub open spec fn spec_blank(s: Seq<char>) -> bool {
    forall|i: int|
        0 <= i < s.len() ==> (#[trigger] s[i]) == ' ' || s[i] == '\t' || s[i] == '\n' || s[i]
            == '\r'
}

/// Where a seed splits: at the first `=`, or failing that the first `:`.
pub open spec fn spec_seed_split(s: Seq<char>) -> int {
    if spec_first_pos(s, '=') >= 0 {
        spec_first_pos(s, '=')
    } else {
        spec_first_pos(s, ':')
    }
}

proof fn lemma_first_pos_range(s: Seq<char>, c: char)
    ensures
        -1 <= spec_first_pos(s, c) < s.len(),
    decreases s.len(),
{
    if s.len() == 0 {
    } else if s[0] == c {
    } else {
        lemma_first_pos_range(s.drop_first(), c);
    }
}

fn first_pos(v: &Vec<char>, c: char) -> (r: Option<usize>)
    ensures
        match r {
            Some(i) => i < v@.len() && i as int == spec_first_pos(v@, c),
            None => spec_first_pos(v@, c) == -1,
        },
{
    let n = v.len();
    let mut i: usize = 0;
    proof {
        assert(v@.skip(0) =~= v@);
    }
    while i < n
        invariant
            n == v@.len(),
            i <= n,
            forall|j: int| 0 <= j < i ==> #[trigger] v@[j] != c,
            spec_first_pos(v@, c) == if spec_first_pos(v@.skip(i as int), c) == -1 {
                -1
            } else {
                i + spec_first_pos(v@.skip(i as int), c)
            },
        decreases n - i,
    {
        proof {
            assert(v@.skip(i as int).len() > 0);
            assert(v@.skip(i as int)[0] == v@[i as int]);
            assert(v@.skip(i as int).drop_first() =~= v@.skip(i as int + 1));
        }
        if v[i] == c {
            return Some(i);
        }
        proof {
            lemma_first_pos_range(v@.skip(i as int + 1), c);
            assert(spec_first_pos(v@.skip(i as int), c) == (
            if spec_first_pos(v@.skip(i as int + 1), c) == -1 {
                -1
            } else {
                1 + spec_first_pos(v@.skip(i as int + 1), c)
            }));
        }
        i = i + 1;
    }
    None
}

fn all_blank(v: &Vec<char>, from: usize, to: usize) -> (r: bool)
    requires
        from <= to <= v@.len(),
    ensures
        r == spec_blank(v@.subrange(from as int, to as int)),
{
    let mut i: usize = from;
    while i < to
        invariant
            from <= i <= to <= v@.len(),
            forall|j: int|
                from <= j < i ==> (#[trigger] v@[j]) == ' ' || v@[j] == '\t' || v@[j] == '\n'
                    || v@[j] == '\r',
        decreases to - i,
    {
        let ch = v[i];
        if !(ch == ' ' || ch == '\t' || ch == '\n' || ch == '\r') {
            proof {
                assert(v@.subrange(from as int, to as int)[i - from] == v@[i as int]);
            }
            return false;
        }
        i = i + 1;
    }
    proof {
        assert(forall|j: int|
            0 <= j < to - from ==> #[trigger] v@.subrange(from as int, to as int)[j] == v@[j
                + from]);
    }
    true
}

/// Parse a seed of the form `<id>=<scenario_path>` (or with `:` as the
/// separator): fails exactly when no separator occurs or the identifier is
/// blank.
pub fn parse_seed(raw: &str) -> (r: Result<SeedCandidate, String>)
    ensures
        (r is Err) <==> (spec_seed_split(raw@) < 0 || spec_blank(
            raw@.subrange(0, spec_seed_split(raw@)),
        )),
        match r {
            Ok(seed) => {
                &&& seed.id@ == raw@.subrange(0, spec_seed_split(raw@))
                &&& seed.scenario@ == raw@.subrange(spec_seed_split(raw@) + 1, raw@.len() as int)
            },
            Err(_) => true,
        },
{
    let chars = chars_of(raw);
    let split = match first_pos(&chars, '=') {
        Some(i) => Some(i),
        None => first_pos(&chars, ':'),
    };
    let idx = match split {
        Some(i) => i,
        None => {
            return Err("Seed must be formatted as <id>=<scenario_path>".to_owned());
        },
    };
    if all_blank(&chars, 0, idx) {
        return Err("Seed identifier cannot be empty".to_owned());
    }
    let mut id_chars: Vec<char> = Vec::new();
    let mut i: usize = 0;
    while i < idx
        invariant
            idx < chars@.len(),
            i <= idx,
            id_chars@ =~= chars@.subrange(0, i as int),
        decreases idx - i,
    {
        id_chars.push(chars[i]);
        proof {
            assert(id_chars@ =~= chars@.subrange(0, i as int + 1));
        }
        i = i + 1;
    }
    let total = chars.len();
    let mut path_chars: Vec<char> = Vec::new();
    let mut j: usize = idx + 1;
    while j < chars.len()
        invariant
            idx < chars@.len(),
            idx + 1 <= j <= chars@.len(),
            path_chars@ =~= chars@.subrange(idx as int + 1, j as int),
        decreases chars@.len() - j,
    {
        path_chars.push(chars[j]);
        proof {
            assert(path_chars@ =~= chars@.subrange(idx as int + 1, j as int + 1));
        }
        j = j + 1;
    }
    let id = string_from_chars(&id_chars);
    let scenario = string_from_chars(&path_chars);
    Ok(SeedCandidate { id, scenario })
}

} // verus!
