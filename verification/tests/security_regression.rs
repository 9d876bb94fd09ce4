use morphogenetic_security::cellular::{CellAction, CellEnvironment, SecurityCell};
use morphogenetic_security::immune::PublicKeyDirectory;
use morphogenetic_security::signaling::{Signal, SignalBus};

#[test]
fn test_security_cell_tick_does_not_short_circuit_on_consensus_spam() {
    let mut directory = PublicKeyDirectory::new();
    let mut cell = SecurityCell::new("test_cell", &mut directory);
    let signal = Signal {
        topic: "consensus:activator".to_string(),
        value: 1000,
        source: Some("malicious_peer".to_string()),
        target: None,
        attestation: None, // unauthenticated
    };

    let env = CellEnvironment {
        step: 10,
        local_threat_score: 100,
        neighbor_signals: vec![signal],
        detected_neighbors: vec!["malicious_peer".to_string()],
    };

    let action = cell.tick(&env, &directory);

    // trust was penalised, but the rest of the ladder still ran
    assert!(
        matches!(action, CellAction::Idle),
        "Expected Idle, got {:?}",
        action
    );
}

#[test]
fn test_signal_bus_purge_removes_all_signals_from_source() {
    let mut bus = SignalBus::new();

    // targeted signal to victim
    bus.publish(Signal {
        topic: "ping".to_string(),
        value: 1000,
        source: Some("spammer".to_string()),
        target: Some("victim".to_string()),
        attestation: None,
    });

    // broadcast signal
    bus.publish(Signal {
        topic: "broadcast_spam".to_string(),
        value: 1000,
        source: Some("spammer".to_string()),
        target: None,
        attestation: None,
    });

    // targeted signal to someone else
    bus.publish(Signal {
        topic: "ping".to_string(),
        value: 1000,
        source: Some("spammer".to_string()),
        target: Some("third_party".to_string()),
        attestation: None,
    });

    // another signal (safe)
    bus.publish(Signal {
        topic: "safe".to_string(),
        value: 1000,
        source: Some("good_guy".to_string()),
        target: None,
        attestation: None,
    });

    bus.purge_from("spammer", "victim");

    let remaining = bus.drain();

    let from_spammer = remaining
        .iter()
        .filter(|s| s.source.as_deref() == Some("spammer"))
        .count();
    let has_safe = remaining.iter().any(|s| s.topic == "safe");

    assert_eq!(from_spammer, 0, "ALL signals from spammer should be removed");
    assert!(has_safe, "safe signal should be kept");
}
