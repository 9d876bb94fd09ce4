use morphogenetic_security::adversarial::{uniform_crossover_stimulus, Mutation};
use morphogenetic_security::config::{
    default_background_threat, default_initial_cells, default_scenario_name,
    default_simulation_steps, default_spike_threshold, parse_seed, ScenarioConfig, ThreatSpike,
};
use morphogenetic_security::stimulus::{StimulusCommand, StimulusSchedule};

fn cmd(step: u32, topic: &str, value: u32) -> StimulusCommand {
    StimulusCommand {
        step,
        topic: topic.to_string(),
        value,
    }
}

#[test]
fn defaults_are_applied_when_fields_missing() {
    let mut config = ScenarioConfig::default();
    config.scenario_name = "test-lab".to_string();
    assert_eq!(config.scenario_name, "test-lab");
    assert_eq!(config.initial_cell_count, 1);
    assert_eq!(config.simulation_steps, 1);
    assert_eq!(config.threat_profile.background_threat, 100);
    assert_eq!(default_scenario_name(), "baseline");
    assert_eq!(default_initial_cells(), 1);
    assert_eq!(default_simulation_steps(), 1);
    assert_eq!(default_background_threat(), 100);
    assert_eq!(default_spike_threshold(), 800);
}

#[test]
fn explicit_values_override_defaults() {
    let mut config = ScenarioConfig::default();
    config.scenario_name = "stress-test".to_string();
    config.initial_cell_count = 3;
    config.simulation_steps = 5;
    config.threat_profile.background_threat = 300;
    config.threat_profile.spike_threshold = 600;
    assert_eq!(config.scenario_name, "stress-test");
    assert_eq!(config.initial_cell_count, 3);
    assert_eq!(config.simulation_steps, 5);
    assert_eq!(config.threat_profile.background_threat, 300);
    assert_eq!(config.threat_profile.spike_threshold, 600);
}

#[test]
fn threat_schedule_adds_spikes_on_matching_steps() {
    let mut config = ScenarioConfig::default();
    config.threat_profile.background_threat = 200;
    config.spikes = vec![
        ThreatSpike {
            step: 1,
            intensity: 300,
        },
        ThreatSpike {
            step: 3,
            intensity: 500,
        },
    ];
    assert_eq!(config.threat_level_for_step(0), 200);
    assert_eq!(config.threat_level_for_step(1), 500);
    assert_eq!(config.threat_level_for_step(2), 200);
    assert_eq!(config.threat_level_for_step(3), 700);
}

#[test]
fn scenario_mutation_adds_spike() {
    let mut config = ScenarioConfig::default();
    config.apply_mutation(&Mutation::AddSpike {
        step: 4,
        intensity: 500,
    });
    assert_eq!(config.spikes.len(), 1);
    assert_eq!(config.spikes[0].step, 4);
    assert_eq!(config.spikes[0].intensity, 500);
    config.apply_mutation(&Mutation::ChangeEventTiming {
        event_index: 0,
        new_step: 9,
    });
    assert_eq!(config.spikes[0].step, 9);
    assert_eq!(config.spikes[0].intensity, 500);
}

#[test]
fn parse_seed_accepts_equals_and_colon() {
    let seed = parse_seed("probe=scenarios/base.yaml").expect("seed parses");
    assert_eq!(seed.id, "probe");
    assert_eq!(seed.scenario, "scenarios/base.yaml");

    let seed2 = parse_seed("alt:other.yaml").expect("seed parses with colon");
    assert_eq!(seed2.id, "alt");
    assert_eq!(seed2.scenario, "other.yaml");
}

#[test]
fn parse_seed_rejects_bad_input() {
    assert!(parse_seed("no-separator").is_err());
    assert!(parse_seed("   =path.yaml").is_err());
}

#[test]
fn take_for_step_consumes_commands() {
    let cmd_a = cmd(2, "activator", 800);
    let cmd_b = cmd(2, "inhibitor", 400);
    let mut schedule = StimulusSchedule::new(
        vec![(2, vec![cmd_a.clone(), cmd_b.clone()])],
        None,
    );

    let result = schedule.take_for_step(2);
    assert_eq!(result, vec![cmd_a, cmd_b]);
    assert!(schedule.take_for_step(2).is_empty());
}

#[test]
fn test_uniform_crossover_stimulus() {
    let parent1 = StimulusSchedule::new(vec![(0, vec![cmd(0, "a", 1000)])], None);
    let parent2 = StimulusSchedule::new(vec![(0, vec![cmd(0, "b", 2000)])], None);

    let child = uniform_crossover_stimulus(&parent1, &parent2);

    assert_eq!(child.commands.len(), 1);
    let child_command = &child.commands[0].1[0];
    assert!(child_command.topic == "a" || child_command.topic == "b");
}

#[test]
fn crossover_child_takes_union_of_step_keys() {
    let parent1 = StimulusSchedule::new(
        vec![(0, vec![cmd(0, "activator", 500)]), (5, vec![cmd(5, "inhibitor", 200)])],
        None,
    );
    let parent2 = StimulusSchedule::new(
        vec![(0, vec![cmd(0, "cooperative", 100)]), (7, vec![cmd(7, "activator", 900)])],
        None,
    );
    let child = uniform_crossover_stimulus(&parent1, &parent2);
    let keys: Vec<u32> = child.commands.iter().map(|g| g.0).collect();
    assert_eq!(keys, vec![0, 5, 7]);
}

#[test]
fn stimulus_mutations_scale_and_retime() {
    let mut schedule = StimulusSchedule::new(
        vec![
            (1, vec![cmd(1, "activator", 500), cmd(1, "inhibitor", 400)]),
            (3, vec![cmd(3, "activator", 200)]),
        ],
        None,
    );
    schedule.apply_mutation(&Mutation::IncreaseStimulus {
        topic: "activator".to_string(),
        factor: 2000,
    });
    assert_eq!(schedule.commands[0].1[0].value, 1000);
    assert_eq!(schedule.commands[0].1[1].value, 400);
    assert_eq!(schedule.commands[1].1[0].value, 400);

    schedule.apply_mutation(&Mutation::DecreaseStimulus {
        topic: "inhibitor".to_string(),
        factor: 2000,
    });
    assert_eq!(schedule.commands[0].1[1].value, 200);

    // move the third command (flattened index 2) to step 1
    schedule.apply_mutation(&Mutation::ChangeEventTiming {
        event_index: 2,
        new_step: 1,
    });
    assert_eq!(schedule.commands.len(), 1);
    assert_eq!(schedule.commands[0].0, 1);
    assert_eq!(schedule.commands[0].1.len(), 3);
}

#[test]
fn spike_signal_tracks_threshold() {
    let mut config = ScenarioConfig::default();
    config.threat_profile.background_threat = 200;
    config.threat_profile.spike_threshold = 800;
    config.spikes = vec![ThreatSpike {
        step: 1,
        intensity: 700,
    }];
    assert!(config.spike_signal_for_step(0).is_none());
    let spike = config.spike_signal_for_step(1).expect("threshold crossed");
    assert_eq!(spike.topic, "activator");
    assert_eq!(spike.value, 900);
    assert!(spike.source.is_none());
    assert!(spike.target.is_none());
    assert!(spike.attestation.is_none());
}
