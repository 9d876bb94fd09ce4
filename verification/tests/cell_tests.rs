use morphogenetic_security::cellular::{CellAction, CellEnvironment, CellLineage, SecurityCell};
use morphogenetic_security::immune::{signal_payload, PublicKeyDirectory, TPM};
use morphogenetic_security::signaling::Signal;

fn env_with_threat(threat: u32) -> CellEnvironment {
    CellEnvironment {
        step: 0,
        local_threat_score: threat,
        neighbor_signals: Vec::new(),
        detected_neighbors: Vec::new(),
    }
}

#[test]
fn cell_replicates_when_threat_exceeds_threshold() {
    let mut directory = PublicKeyDirectory::new();
    let mut cell = SecurityCell::new("alpha", &mut directory);
    cell.genome.reproduction_threshold = 500;
    let action = cell.tick(&env_with_threat(850), &directory);
    assert!(matches!(action, CellAction::Replicate(_)));
    assert!(cell.state.energy < 1000);
}

#[test]
fn cell_differentiates_under_stress() {
    let mut directory = PublicKeyDirectory::new();
    let mut cell = SecurityCell::new("beta", &mut directory);
    cell.state.stress_level = 820;
    cell.genome.reproduction_threshold = 1000;
    let action = cell.tick(&env_with_threat(600), &directory);
    match action {
        CellAction::Differentiate(lineage) => {
            assert_eq!(lineage, CellLineage::IntrusionDetection);
        }
        other => panic!("expected differentiation, got {other:?}"),
    }
}

#[test]
fn cell_transitions_to_healer_with_inhibitor_support() {
    let mut directory = PublicKeyDirectory::new();
    let mut cell = SecurityCell::new("gamma", &mut directory);
    cell.state.stress_level = 200;
    let signals = vec![Signal {
        topic: "inhibitor".to_string(),
        value: 650,
        source: None,
        target: None,
        attestation: None,
    }];
    let environment = CellEnvironment {
        step: 0,
        local_threat_score: 50,
        neighbor_signals: signals,
        detected_neighbors: Vec::new(),
    };
    let action = cell.tick(&environment, &directory);
    match action {
        CellAction::Differentiate(lineage) => {
            assert_eq!(lineage, CellLineage::Healer);
        }
        other => panic!("expected healer differentiation, got {other:?}"),
    }
}

#[test]
fn cell_emits_signal_on_moderate_threat() {
    let mut directory = PublicKeyDirectory::new();
    let mut cell = SecurityCell::new("delta", &mut directory);
    cell.genome.signal_emission_threshold = 400;
    let signals = vec![Signal {
        topic: "activator".to_string(),
        value: 100,
        source: None,
        target: None,
        attestation: None,
    }];
    let environment = CellEnvironment {
        step: 0,
        local_threat_score: 450,
        neighbor_signals: signals,
        detected_neighbors: Vec::new(),
    };
    let action = cell.tick(&environment, &directory);
    match action {
        CellAction::EmitSignal(topic, value) => {
            assert_eq!(topic, "activator");
            assert!(value >= 400);
        }
        other => panic!("expected signal emission, got {other:?}"),
    }
}

#[test]
fn cell_idles_when_conditions_are_nominal() {
    let mut directory = PublicKeyDirectory::new();
    let mut cell = SecurityCell::new("epsilon", &mut directory);
    let action = cell.tick(&env_with_threat(100), &directory);
    assert!(matches!(action, CellAction::Idle));
}

#[test]
fn cell_disconnects_under_extreme_stress() {
    let mut directory = PublicKeyDirectory::new();
    let mut cell = SecurityCell::new("zeta", &mut directory);
    cell.state.stress_level = 950;
    cell.genome.isolation_threshold = 900;

    let mut environment = env_with_threat(800);
    environment.detected_neighbors.push("bad_neighbor".to_string());

    let action = cell.tick(&environment, &directory);
    match action {
        CellAction::Disconnect(target) => {
            assert_eq!(target, "bad_neighbor");
        }
        other => panic!("expected disconnect, got {other:?}"),
    }
}

#[test]
fn test_swarm_coordinated_quarantine() {
    let mut directory = PublicKeyDirectory::new();
    let mut cell = SecurityCell::new("iota", &mut directory);
    cell.state.stress_level = 100;
    cell.genome.isolation_threshold = 900;

    let mut environment = env_with_threat(0);
    environment.detected_neighbors.push("neighbor_1".to_string());
    environment.detected_neighbors.push("neighbor_2".to_string());

    // neighbor_1 reports neighbor_2 as an anomaly with a valid attestation
    let neighbor_tpm = TPM::new("neighbor_1".to_string(), &mut directory);
    let payload = signal_payload(
        "consensus:activator",
        2000,
        &Some("neighbor_2".to_string()),
    );
    let attestation = neighbor_tpm.attest(0, payload.as_str()).unwrap();

    environment.neighbor_signals.push(Signal {
        topic: "consensus:activator".to_string(),
        value: 2000,
        source: Some("neighbor_1".to_string()),
        target: Some("neighbor_2".to_string()),
        attestation: Some(attestation),
    });

    let action = cell.tick(&environment, &directory);
    match action {
        CellAction::Disconnect(target) => {
            assert_eq!(target, "neighbor_2");
        }
        other => panic!("expected coordinated disconnect of neighbor_2, got {other:?}"),
    }
}

#[test]
fn test_trust_score_disconnection() {
    let mut directory = PublicKeyDirectory::new();
    let mut cell = SecurityCell::new("lambda", &mut directory);
    cell.genome.min_trust_threshold = 300;
    cell.genome.trust_penalty = 400;

    // a consensus signal without an attestation is always penalised
    let signals = vec![Signal {
        topic: "consensus:activator".to_string(),
        value: 1000,
        source: Some("untrusted_neighbor".to_string()),
        target: None,
        attestation: None,
    }];

    let env = CellEnvironment {
        step: 0,
        local_threat_score: 0,
        neighbor_signals: signals,
        detected_neighbors: vec!["untrusted_neighbor".to_string()],
    };

    let action = cell.tick(&env, &directory);
    match action {
        CellAction::Disconnect(target) => {
            assert_eq!(target, "untrusted_neighbor");
        }
        other => panic!("expected disconnect due to low trust, got {other:?}"),
    }
}

#[test]
fn test_anomaly_detection_report() {
    let mut directory = PublicKeyDirectory::new();
    let mut cell = SecurityCell::new("kappa", &mut directory);
    cell.state.lineage = CellLineage::IntrusionDetection;
    cell.genome.anomaly_sensitivity = 400;

    let signals = vec![Signal {
        topic: "activator".to_string(),
        value: 600,
        source: Some("attacker".to_string()),
        target: None,
        attestation: None,
    }];

    let environment = CellEnvironment {
        step: 5,
        local_threat_score: 0,
        neighbor_signals: signals,
        detected_neighbors: vec!["attacker".to_string()],
    };

    let action = cell.tick(&environment, &directory);
    match action {
        CellAction::ReportAnomaly(topic, confidence, target, attestation) => {
            assert_eq!(topic, "activator");
            assert!(confidence >= 500);
            assert_eq!(target, Some("attacker".to_string()));
            assert!(attestation.is_some());
            let att = attestation.unwrap();
            assert_eq!(att.step, 5);
            // the signed payload uses the consensus topic
            let payload =
                signal_payload("consensus:activator", confidence, &Some("attacker".to_string()));
            assert!(TPM::verify(&directory, &att, 5, payload.as_str()));
        }
        other => panic!("expected anomaly report, got {other:?}"),
    }
}

#[test]
fn test_immune_adaptation_and_inheritance() {
    let mut directory = PublicKeyDirectory::new();
    let mut parent = SecurityCell::new("parent", &mut directory);
    parent.state.lineage = CellLineage::IntrusionDetection;
    parent.genome.anomaly_sensitivity = 400;
    let initial_sensitivity = parent.genome.stress_sensitivity;

    let env = CellEnvironment {
        step: 10,
        local_threat_score: 600,
        neighbor_signals: Vec::new(),
        detected_neighbors: Vec::new(),
    };

    let _ = parent.tick(&env, &directory);

    assert!(parent.genome.stress_sensitivity < initial_sensitivity);
    assert_eq!(parent.state.immune_memory.len(), 1);

    let mut child = SecurityCell::new("child", &mut directory);
    child.genome = parent.genome;
    child.state.immune_memory = parent
        .state
        .immune_memory
        .iter()
        .map(|e| e.clone())
        .collect();

    assert!(child.genome.stress_sensitivity < initial_sensitivity);
    assert_eq!(child.state.immune_memory.len(), 1);
}

#[test]
fn cell_energy_stays_in_range_over_many_ticks() {
    let mut directory = PublicKeyDirectory::new();
    let mut cell = SecurityCell::new("ranger", &mut directory);
    for step in 0..60u32 {
        let env = CellEnvironment {
            step,
            local_threat_score: (step % 7) * 300,
            neighbor_signals: vec![Signal {
                topic: "inhibitor".to_string(),
                value: (step % 3) * 200,
                source: None,
                target: None,
                attestation: None,
            }],
            detected_neighbors: Vec::new(),
        };
        let action = cell.tick(&env, &directory);
        assert!(cell.state.energy <= 1500);
        assert!(cell.state.stress_level <= 1000);
        if matches!(action, CellAction::Die) {
            assert!(cell.state.energy <= 10);
        }
    }
}

#[test]
fn exhausted_cell_dies_before_any_disconnect() {
    // death (recomputed energy at the threshold) outranks the quarantine
    // and low-trust disconnects
    let mut directory = PublicKeyDirectory::new();
    let mut cell = SecurityCell::new("mu", &mut directory);
    cell.state.energy = 0;
    cell.genome.energy_recharge = 0;
    cell.genome.min_trust_threshold = 600;
    let env = CellEnvironment {
        step: 0,
        local_threat_score: 0,
        neighbor_signals: Vec::new(),
        detected_neighbors: vec!["shady".to_string()],
    };
    let action = cell.tick(&env, &directory);
    assert!(matches!(action, CellAction::Die));
    assert!(cell.state.energy <= 10);
}

#[test]
fn unattested_consensus_spam_is_penalised_even_below_threshold() {
    // penalties keep applying once trust is already below the threshold:
    // two unattested consensus signals cost two penalties
    let mut directory = PublicKeyDirectory::new();
    let mut cell = SecurityCell::new("nu", &mut directory);
    cell.genome.min_trust_threshold = 600;
    cell.genome.trust_penalty = 100;
    let spam = || Signal {
        topic: "consensus:activator".to_string(),
        value: 500,
        source: Some("noisy".to_string()),
        target: None,
        attestation: None,
    };
    let env = CellEnvironment {
        step: 0,
        local_threat_score: 0,
        neighbor_signals: vec![spam(), spam()],
        detected_neighbors: vec!["noisy".to_string()],
    };
    let action = cell.tick(&env, &directory);
    assert!(matches!(action, CellAction::Disconnect(ref t) if t == "noisy"));
    assert_eq!(
        cell.state.neighbor_trust.entries,
        vec![("noisy".to_string(), 300)]
    );
}
