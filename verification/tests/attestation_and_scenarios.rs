use morphogenetic_security::adversarial::{
    build_statistics_from_steps, compute_fitness, recommend_mutation, roulette_wheel_selection,
    tournament_selection, AdversarialHarness, AttackCandidate, AttackOutcome, CrossoverStrategy,
    EvolutionConfig, MutationStrategy, RunStatistics, SelectionStrategy, StepMetrics,
};
use morphogenetic_security::immune::{
    attest_message, render_tenths, signal_payload, Attestation, PublicKeyDirectory, TPM,
};
use morphogenetic_security::strutil::u64_to_dec;
use morphogenetic_security::table::{merge_u32_map, top_u32, U32Table};
use morphogenetic_security::telemetry::system_time_to_millis;

fn table(entries: Vec<(&str, u32)>) -> U32Table {
    U32Table {
        entries: entries.into_iter().map(|(k, v)| (k.to_string(), v)).collect(),
    }
}

fn metrics_row(
    step: u32,
    threat_score: u32,
    cell_count: u32,
    replications: u32,
    signals: Vec<(&str, u32)>,
) -> StepMetrics {
    let signals_total = signals.iter().map(|e| e.1).sum();
    StepMetrics {
        step,
        threat_score,
        cell_count,
        replications,
        signals_total,
        lineage_shifts_total: 0,
        stimulus_total: 0,
        signals_by_topic: table(signals),
        lineage_shifts_by_lineage: table(vec![]),
        stimulus_by_topic: table(vec![]),
    }
}

#[test]
fn attestation_round_trip_verifies() {
    let mut directory = PublicKeyDirectory::new();
    let tpm = TPM::new("node-1".to_string(), &mut directory);
    let payload = signal_payload("activator", 900, &None);
    let att = tpm.attest(4, payload.as_str()).expect("attestation issued");
    assert!(att.valid);
    assert_eq!(att.step, 4);
    // fresh and one step stale both pass
    assert!(TPM::verify(&directory, &att, 4, payload.as_str()));
    assert!(TPM::verify(&directory, &att, 5, payload.as_str()));
}

#[test]
fn verify_rejects_stale_future_tampered_and_unknown() {
    let mut directory = PublicKeyDirectory::new();
    let tpm = TPM::new("node-2".to_string(), &mut directory);
    let payload = signal_payload("activator", 900, &None);
    let att = tpm.attest(4, payload.as_str()).expect("attestation issued");

    // more than one step behind the current step
    assert!(!TPM::verify(&directory, &att, 6, payload.as_str()));
    // a step from the future
    assert!(!TPM::verify(&directory, &att, 3, payload.as_str()));
    // a different payload: the recomputed hash no longer matches
    let other = signal_payload("activator", 100, &None);
    assert!(!TPM::verify(&directory, &att, 4, other.as_str()));
    // an unknown signer, even with well-formed signature bytes
    let forged = Attestation {
        cell_id: "stranger".to_string(),
        step: att.step,
        payload_hash: att.payload_hash.clone(),
        signature: att.signature.clone(),
        valid: true,
    };
    assert!(!TPM::verify(&directory, &forged, 4, payload.as_str()));
    // a claim marked invalid
    let marked = Attestation {
        cell_id: att.cell_id.clone(),
        step: att.step,
        payload_hash: att.payload_hash.clone(),
        signature: att.signature.clone(),
        valid: false,
    };
    assert!(!TPM::verify(&directory, &marked, 4, payload.as_str()));
}

#[test]
fn verify_rejects_tampered_signature_bytes() {
    let mut directory = PublicKeyDirectory::new();
    let tpm = TPM::new("node-3".to_string(), &mut directory);
    let payload = signal_payload("activator", 900, &None);
    let att = tpm.attest(2, payload.as_str()).expect("attestation issued");
    let mut tampered_sig = att.signature.clone();
    tampered_sig[0] = tampered_sig[0].wrapping_add(1);
    let tampered = Attestation {
        cell_id: att.cell_id.clone(),
        step: att.step,
        payload_hash: att.payload_hash.clone(),
        signature: tampered_sig,
        valid: true,
    };
    assert!(!TPM::verify(&directory, &tampered, 2, payload.as_str()));
}

#[test]
fn compromised_module_declines_to_attest() {
    let mut directory = PublicKeyDirectory::new();
    let mut tpm = TPM::new("node-4".to_string(), &mut directory);
    tpm.compromised = true;
    assert!(tpm.attest(0, "anything").is_none());
}

#[test]
fn canonical_renderings_are_exact() {
    assert_eq!(u64_to_dec(0), "0");
    assert_eq!(u64_to_dec(90210), "90210");
    assert_eq!(render_tenths(2000), "2.0");
    assert_eq!(render_tenths(650), "0.7");
    assert_eq!(render_tenths(0), "0.0");
    assert_eq!(
        signal_payload("consensus:activator", 2000, &Some("neighbor_2".to_string())),
        "consensus:activator:2.0:neighbor_2"
    );
    assert_eq!(signal_payload("activator", 640, &None), "activator:0.6:none");
    assert_eq!(attest_message(12, "abc123"), "12:abc123");
    assert_eq!(system_time_to_millis(3, 7_500_000), 3007);
}

#[test]
fn three_step_fixture_yields_full_statistics() {
    // three steps, threat scores starting [0.42, 0.85, ...] and an
    // activator/inhibitor signal map at step 0
    let steps = vec![
        metrics_row(0, 420, 5, 2, vec![("activator", 3), ("inhibitor", 1)]),
        metrics_row(1, 850, 4, 1, vec![("activator", 2)]),
        metrics_row(2, 510, 4, 1, vec![("activator", 1)]),
    ];
    let stats = build_statistics_from_steps(&steps).expect("statistics built");
    assert_eq!(stats.step_count, 3);
    let (fitness, breach) = compute_fitness(&stats);
    assert!(fitness <= 1000);
    let recommended = recommend_mutation(&stats, fitness, breach);
    assert!(recommended.is_some());
}

#[test]
fn settled_candidate_breeds_no_follow_up() {
    // fitness at least 0.4, no breach, lineage pressure at least 0.2,
    // reproduction rate at most 0.6: the ladder recommends nothing, so the
    // harness archives one outcome and breeds no follow-up
    let mut harness = AdversarialHarness::new(EvolutionConfig {
        batch_size: 1,
        max_generations: 5,
        retain_elite: false,
        crossover_rate: 700,
        selection_strategy: SelectionStrategy::Tournament { size: 3 },
        crossover_strategy: CrossoverStrategy::Uniform,
        mutation_strategy: MutationStrategy::Random,
    });
    let candidate = AttackCandidate {
        id: "settled-seed".to_string(),
        scenario_ref: "docs/examples/a.yaml".to_string(),
        stimulus_ref: None,
        generation: 0,
        parent_id: None,
        mutation: None,
    };
    let steps = vec![StepMetrics {
        step: 1,
        threat_score: 1000,
        cell_count: 10,
        replications: 0,
        signals_total: 0,
        lineage_shifts_total: 1,
        stimulus_total: 0,
        signals_by_topic: table(vec![]),
        lineage_shifts_by_lineage: table(vec![]),
        stimulus_by_topic: table(vec![]),
    }];
    let (outcome, follow_up, analysis) = harness
        .evaluate_steps(candidate, steps)
        .expect("evaluation succeeds");
    assert!(analysis.fitness_score >= 400);
    assert!(!analysis.breach_observed);
    assert!(analysis.recommended_mutation.is_none());
    assert!(follow_up.is_none());
    assert_eq!(outcome.candidate.id, "settled-seed");
    assert_eq!(harness.archive_len(), 1);
    assert_eq!(harness.backlog_len(), 0);
}

#[test]
fn tournament_result_is_population_member() {
    let mut population = Vec::new();
    for idx in 0..5u32 {
        population.push(AttackOutcome {
            candidate: AttackCandidate {
                id: format!("cand-{idx}"),
                scenario_ref: "s.yaml".to_string(),
                stimulus_ref: None,
                generation: idx,
                parent_id: None,
                mutation: None,
            },
            fitness_score: idx * 100,
            breach_observed: false,
            notes: None,
            statistics: RunStatistics {
                step_count: 1,
                avg_threat: 100,
                max_threat: 100,
                avg_cell_count: 1000,
                min_cell_count: 1,
                max_cell_count: 1,
                total_replications: 0,
                total_signals: 0,
                total_lineage_shifts: 0,
                total_stimulus: 0,
                signals_by_topic: table(vec![]),
                lineage_by_type: table(vec![]),
                stimuli_by_topic: table(vec![]),
            },
        });
    }
    for _ in 0..20 {
        let winner = tournament_selection(&population, 3).expect("selection succeeds");
        assert!(population.iter().any(|o| o.candidate.id == winner.candidate.id));
        let drawn = roulette_wheel_selection(&population).expect("selection succeeds");
        assert!(population.iter().any(|o| o.candidate.id == drawn.candidate.id));
    }
    assert!(tournament_selection(&population, 0).is_err());
    let empty: Vec<AttackOutcome> = Vec::new();
    assert!(tournament_selection(&empty, 3).is_err());
    assert!(roulette_wheel_selection(&empty).is_err());
}

#[test]
fn merge_and_top_follow_table_order() {
    let mut target = table(vec![("activator", 2), ("inhibitor", 1)]);
    let source = table(vec![("inhibitor", 4), ("cooperative", 7)]);
    merge_u32_map(&mut target, &source);
    assert_eq!(
        target.entries,
        vec![
            ("activator".to_string(), 2),
            ("inhibitor".to_string(), 5),
            ("cooperative".to_string(), 7),
        ]
    );
    let (top_key, top_val) = top_u32(&target);
    assert_eq!(top_key, "cooperative");
    assert_eq!(top_val, 7);

    let empty = table(vec![]);
    let (no_key, no_val) = top_u32(&empty);
    assert_eq!(no_key, "");
    assert_eq!(no_val, 0);

    // ties go to the first entry
    let tied = table(vec![("first", 3), ("second", 3)]);
    let (tie_key, _) = top_u32(&tied);
    assert_eq!(tie_key, "first");
}
