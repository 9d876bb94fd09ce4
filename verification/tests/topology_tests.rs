use morphogenetic_security::cellular::SecurityCell;
use morphogenetic_security::config::{TopologyConfig, TopologyStrategy};
use morphogenetic_security::immune::PublicKeyDirectory;
use morphogenetic_security::orchestration::MorphogeneticApp;
use morphogenetic_security::signaling::Signal;
use morphogenetic_security::telemetry::{InMemorySink, TelemetryEvent};

fn three_cells(directory: &mut PublicKeyDirectory) -> Vec<SecurityCell> {
    let mut cells = Vec::new();
    for id in ["A", "B", "C"] {
        let mut cell = SecurityCell::new(id, directory);
        cell.genome.signal_emission_threshold = 400;
        cells.push(cell);
    }
    cells
}

fn emitted_by(app: &MorphogeneticApp<InMemorySink>, who: &str) -> bool {
    app.telemetry().events().iter().any(|snapshot| match &snapshot.event {
        TelemetryEvent::SignalEmitted { cell_id, .. } => cell_id == who,
        _ => false,
    })
}

#[test]
fn test_graph_topology_isolation() {
    // A linear chain A - B - C: a signal attributed to A reaches the
    // adjacent B, which crosses its emission threshold, while the
    // non-adjacent C stays idle.
    let mut directory = PublicKeyDirectory::new();
    let cells = three_cells(&mut directory);
    let topology_config = TopologyConfig {
        strategy: TopologyStrategy::Graph,
    };
    let telemetry = InMemorySink::new();
    let mut app = MorphogeneticApp::new(cells, telemetry, topology_config, 0);

    app.inject_signal(Signal {
        topic: "activator".to_string(),
        value: 500,
        source: Some("A".to_string()),
        target: None,
        attestation: None,
    });

    app.step(0, 0, 0, &mut directory);

    assert!(
        emitted_by(&app, "B"),
        "cell B should have received the signal from A and emitted a response"
    );
    assert!(
        !emitted_by(&app, "C"),
        "cell C should not have received the signal from A directly"
    );
}

#[test]
fn test_global_topology_broadcast() {
    let mut directory = PublicKeyDirectory::new();
    let cells = three_cells(&mut directory);
    let topology_config = TopologyConfig {
        strategy: TopologyStrategy::Global,
    };
    let telemetry = InMemorySink::new();
    let mut app = MorphogeneticApp::new(cells, telemetry, topology_config, 0);

    app.inject_signal(Signal {
        topic: "activator".to_string(),
        value: 500,
        source: Some("A".to_string()),
        target: None,
        attestation: None,
    });

    app.step(0, 0, 0, &mut directory);

    assert!(emitted_by(&app, "B"), "cell B should have received the global signal");
    assert!(emitted_by(&app, "C"), "cell C should have received the global signal");
}

#[test]
fn dead_cells_leave_population_and_graph() {
    let mut directory = PublicKeyDirectory::new();
    let mut cells = Vec::new();
    for id in ["left", "middle", "right"] {
        let mut cell = SecurityCell::new(id, &mut directory);
        // the middle cell is drained so its first tick kills it
        if id == "middle" {
            cell.state.energy = 0;
            cell.genome.energy_recharge = 0;
        }
        cells.push(cell);
    }
    let mut app = MorphogeneticApp::new(
        cells,
        InMemorySink::new(),
        TopologyConfig {
            strategy: TopologyStrategy::Graph,
        },
        0,
    );

    app.step(0, 0, 0, &mut directory);

    assert_eq!(app.cells.len(), 2);
    assert!(app.cells.iter().all(|c| !c.state.dead));
    let died = app.telemetry().events().iter().any(|s| {
        matches!(&s.event, TelemetryEvent::CellDied { cell_id } if cell_id == "middle")
    });
    assert!(died, "the drained cell should have died");
    for (_, list) in app.neighbors.iter() {
        assert!(list.iter().all(|n| n != "middle"));
    }
}

#[test]
fn step_summary_is_recorded() {
    let mut directory = PublicKeyDirectory::new();
    let mut cells = Vec::new();
    cells.push(SecurityCell::new("solo", &mut directory));
    let mut app = MorphogeneticApp::new(
        cells,
        InMemorySink::new(),
        TopologyConfig {
            strategy: TopologyStrategy::Global,
        },
        7,
    );
    app.step(0, 250, 7, &mut directory);
    let summary = app.telemetry().events().iter().find_map(|s| match &s.event {
        TelemetryEvent::StepSummary {
            step,
            threat_score,
            cell_count,
            ..
        } => Some((*step, *threat_score, *cell_count)),
        _ => None,
    });
    assert_eq!(summary, Some((0, 250, 1)));
}
