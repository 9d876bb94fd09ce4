use morphogenetic_security::adversarial::{
    build_statistics_from_steps, compute_fitness, perform_crossover, perform_mutation,
    recommend_mutation, AdversarialHarness, AttackCandidate, AttackOutcome, CrossoverStrategy,
    EvolutionConfig, ExecutionReport, Executor, HarnessError, Mutation, MutationStrategy,
    RunStatistics, SelectionStrategy, StepMetrics,
};
use morphogenetic_security::table::U32Table;

fn table(entries: Vec<(&str, u32)>) -> U32Table {
    U32Table {
        entries: entries.into_iter().map(|(k, v)| (k.to_string(), v)).collect(),
    }
}

fn step_metrics(
    step: u32,
    threat_score: u32,
    cell_count: u32,
    replications: u32,
    signals_total: u32,
    lineage_shifts_total: u32,
    stimulus_total: u32,
    signals: Vec<(&str, u32)>,
    lineage: Vec<(&str, u32)>,
    stimulus: Vec<(&str, u32)>,
) -> StepMetrics {
    StepMetrics {
        step,
        threat_score,
        cell_count,
        replications,
        signals_total,
        lineage_shifts_total,
        stimulus_total,
        signals_by_topic: table(signals),
        lineage_shifts_by_lineage: table(lineage),
        stimulus_by_topic: table(stimulus),
    }
}

fn stats_template() -> RunStatistics {
    RunStatistics {
        step_count: 1,
        avg_threat: 100,
        max_threat: 200,
        avg_cell_count: 1000,
        min_cell_count: 1,
        max_cell_count: 1,
        total_replications: 0,
        total_signals: 0,
        total_lineage_shifts: 0,
        total_stimulus: 0,
        signals_by_topic: table(vec![]),
        lineage_by_type: table(vec![]),
        stimuli_by_topic: table(vec![]),
    }
}

fn candidate(id: &str, scenario: &str, generation: u32) -> AttackCandidate {
    AttackCandidate {
        id: id.to_string(),
        scenario_ref: scenario.to_string(),
        stimulus_ref: None,
        generation,
        parent_id: None,
        mutation: None,
    }
}

struct StaticExecutor {
    steps_per_run: Vec<StepMetrics>,
}

impl Executor for StaticExecutor {
    fn execute(&mut self, _candidate: &AttackCandidate) -> Result<ExecutionReport, HarnessError> {
        let steps = self
            .steps_per_run
            .iter()
            .map(|m| StepMetrics {
                step: m.step,
                threat_score: m.threat_score,
                cell_count: m.cell_count,
                replications: m.replications,
                signals_total: m.signals_total,
                lineage_shifts_total: m.lineage_shifts_total,
                stimulus_total: m.stimulus_total,
                signals_by_topic: U32Table { entries: m.signals_by_topic.entries.clone() },
                lineage_shifts_by_lineage: U32Table {
                    entries: m.lineage_shifts_by_lineage.entries.clone(),
                },
                stimulus_by_topic: U32Table { entries: m.stimulus_by_topic.entries.clone() },
            })
            .collect();
        Ok(ExecutionReport {
            steps,
            telemetry_path: None,
            metrics_path: None,
            stimulus_path: None,
        })
    }

    fn combine_stimulus(
        &mut self,
        _parent1: &AttackCandidate,
        _parent2: &AttackCandidate,
        _child_id: &String,
        _generation: u32,
    ) -> Result<Option<String>, HarnessError> {
        Ok(None)
    }
}

struct GenerationExecutor;

impl Executor for GenerationExecutor {
    fn execute(&mut self, candidate: &AttackCandidate) -> Result<ExecutionReport, HarnessError> {
        let base_threat = 300 + candidate.generation * 100;
        let steps = vec![step_metrics(
            candidate.generation,
            base_threat,
            4,
            1,
            0,
            0,
            0,
            vec![],
            vec![],
            vec![],
        )];
        Ok(ExecutionReport {
            steps,
            telemetry_path: None,
            metrics_path: None,
            stimulus_path: None,
        })
    }

    fn combine_stimulus(
        &mut self,
        _parent1: &AttackCandidate,
        _parent2: &AttackCandidate,
        _child_id: &String,
        _generation: u32,
    ) -> Result<Option<String>, HarnessError> {
        Ok(None)
    }
}

#[test]
fn retain_elite_requeues_elite_candidates() {
    let mut harness = AdversarialHarness::new(EvolutionConfig {
        batch_size: 1,
        max_generations: 5,
        retain_elite: true,
        crossover_rate: 700,
        selection_strategy: SelectionStrategy::Tournament { size: 3 },
        crossover_strategy: CrossoverStrategy::Uniform,
        mutation_strategy: MutationStrategy::Random,
    });

    harness.enqueue(candidate("elite-seed-1", "docs/examples/a.yaml", 0));

    let mut executor = StaticExecutor {
        steps_per_run: vec![step_metrics(1, 1000, 10, 0, 0, 1, 0, vec![], vec![], vec![])],
    };
    let evaluations = harness
        .run_generations(1, &mut executor)
        .expect("elite candidate evaluation");

    assert_eq!(evaluations.len(), 1);
    assert_eq!(harness.archive.len(), 1);
    // the settled elite is re-enqueued with its mutation cleared, on top of
    // the batch bred from the non-empty archive
    assert_eq!(harness.backlog_len(), harness.config.batch_size + 1);
}

#[test]
fn next_batch_respects_batch_size() {
    let mut harness = AdversarialHarness::new(EvolutionConfig {
        batch_size: 2,
        max_generations: 5,
        retain_elite: false,
        crossover_rate: 700,
        selection_strategy: SelectionStrategy::Tournament { size: 3 },
        crossover_strategy: CrossoverStrategy::Uniform,
        mutation_strategy: MutationStrategy::Random,
    });

    harness.enqueue(candidate("seed-1", "docs/examples/baseline-growth.yaml", 0));

    let mut mut_2 = candidate("mut-2", "docs/examples/intense-defense.yaml", 1);
    mut_2.parent_id = Some("seed-1".to_string());
    mut_2.mutation = Some(Mutation::IncreaseStimulus {
        topic: "inhibitor".to_string(),
        factor: 1500,
    });
    harness.enqueue(mut_2);

    let mut mut_3 = candidate("mut-3", "docs/examples/rapid-probe.yaml", 1);
    mut_3.parent_id = Some("seed-1".to_string());
    mut_3.mutation = Some(Mutation::AddSpike {
        step: 10,
        intensity: 800,
    });
    harness.enqueue(mut_3);

    let first_batch = harness.next_batch();
    assert_eq!(first_batch.len(), 2);
    assert_eq!(harness.backlog_len(), 1);

    let second_batch = harness.next_batch();
    assert_eq!(second_batch.len(), 1);
    assert_eq!(harness.backlog_len(), 0);
}

#[test]
fn analyze_metrics_from_csv_stream() {
    let steps = vec![
        step_metrics(
            0,
            420,
            5,
            2,
            4,
            2,
            600,
            vec![("activator", 3), ("inhibitor", 1)],
            vec![("stem", 2)],
            vec![("activator", 600)],
        ),
        step_metrics(
            1,
            850,
            4,
            1,
            2,
            1,
            1400,
            vec![("activator", 2)],
            vec![("adaptive", 1)],
            vec![("activator", 400), ("inhibitor", 1000)],
        ),
    ];
    let stats = build_statistics_from_steps(&steps).expect("analysis");
    let (fitness, breach) = compute_fitness(&stats);
    let recommended = recommend_mutation(&stats, fitness, breach);
    assert_eq!(stats.step_count, 2);
    assert!(stats.total_signals > 0);
    assert!(recommended.is_some());
}

#[test]
fn evaluate_csv_records_outcome_and_enqueues_mutation() {
    let steps = vec![
        step_metrics(0, 300, 4, 3, 1, 0, 200, vec![("activator", 1)], vec![], vec![(
            "activator",
            200,
        )]),
        step_metrics(1, 280, 5, 2, 1, 0, 200, vec![("activator", 1)], vec![], vec![(
            "activator",
            200,
        )]),
    ];

    let mut harness = AdversarialHarness::new(EvolutionConfig {
        batch_size: 1,
        max_generations: 3,
        retain_elite: false,
        crossover_rate: 700,
        selection_strategy: SelectionStrategy::Tournament { size: 3 },
        crossover_strategy: CrossoverStrategy::Uniform,
        mutation_strategy: MutationStrategy::Random,
    });

    let mut seed = candidate("seed-ci", "docs/examples/intense-defense.yaml", 0);
    seed.stimulus_ref = Some("docs/examples/ci-stimulus.jsonl".to_string());

    let (outcome, maybe_mutation, analysis) =
        harness.evaluate_steps(seed, steps).expect("evaluation");
    assert!(analysis.fitness_score <= 1000);
    assert_eq!(outcome.candidate.id, "seed-ci");
    assert_eq!(outcome.statistics.step_count, 2);
    if let Some(mutant) = maybe_mutation {
        assert!(mutant.id.starts_with("seed-ci-mut"));
        assert_eq!(
            mutant.stimulus_ref.as_deref(),
            Some("docs/examples/ci-stimulus.jsonl")
        );
        assert_eq!(harness.backlog_len(), 1);
    }
}

#[test]
fn harness_state_roundtrip_persists_archive() {
    let mut harness = AdversarialHarness::new(EvolutionConfig {
        batch_size: 1,
        max_generations: 4,
        retain_elite: true,
        crossover_rate: 700,
        selection_strategy: SelectionStrategy::Tournament { size: 3 },
        crossover_strategy: CrossoverStrategy::Uniform,
        mutation_strategy: MutationStrategy::Random,
    });

    let mut seed = candidate("state-seed", "docs/examples/intense-defense.yaml", 0);
    seed.mutation = Some(Mutation::AddSpike {
        step: 0,
        intensity: 0,
    });

    let steps = vec![step_metrics(
        0,
        500,
        4,
        1,
        1,
        0,
        400,
        vec![("activator", 1)],
        vec![],
        vec![("activator", 400)],
    )];

    harness
        .evaluate_steps(seed, steps)
        .expect("evaluation succeeds");

    let state = harness.snapshot_state();
    let loaded = AdversarialHarness::from_state(state);
    assert_eq!(loaded.config().batch_size, 1);
    assert_eq!(loaded.archive.len(), 1);
    assert_eq!(loaded.archive[0].candidate.id, "state-seed");
    assert!(loaded.archive[0].statistics.total_signals >= 1);
}

#[test]
fn run_generations_executes_batches() {
    let mut harness = AdversarialHarness::new(EvolutionConfig {
        batch_size: 1,
        max_generations: 5,
        retain_elite: false,
        crossover_rate: 700,
        selection_strategy: SelectionStrategy::Tournament { size: 3 },
        crossover_strategy: CrossoverStrategy::Uniform,
        mutation_strategy: MutationStrategy::Random,
    });

    harness.enqueue(candidate("loop-seed-1", "docs/examples/a.yaml", 0));
    harness.enqueue(candidate("loop-seed-2", "docs/examples/b.yaml", 0));

    let mut executor = GenerationExecutor;
    let evaluations = harness
        .run_generations(2, &mut executor)
        .expect("loop execution");

    assert_eq!(evaluations.len(), 5);
    assert_eq!(harness.archive.len(), 5);
    assert_eq!(harness.backlog_len(), 4);
}

#[test]
fn archive_prunes_to_configured_limit() {
    let mut harness = AdversarialHarness::new(EvolutionConfig {
        batch_size: 1,
        max_generations: 2,
        retain_elite: false,
        crossover_rate: 700,
        selection_strategy: SelectionStrategy::Tournament { size: 3 },
        crossover_strategy: CrossoverStrategy::Uniform,
        mutation_strategy: MutationStrategy::Random,
    });

    for idx in 0..3u32 {
        let outcome = AttackOutcome {
            candidate: candidate(&format!("cand-{idx}"), "docs/examples/demo.yaml", idx),
            fitness_score: idx * 1000,
            breach_observed: false,
            notes: None,
            statistics: stats_template(),
        };
        harness.record_outcome(outcome);
    }

    assert_eq!(harness.archive.len(), 2);
    assert_eq!(harness.archive[0].candidate.id, "cand-1");
    assert_eq!(harness.archive[1].candidate.id, "cand-2");
}

#[test]
fn archive_clears_when_limit_zero() {
    let mut harness = AdversarialHarness::new(EvolutionConfig {
        batch_size: 1,
        max_generations: 0,
        retain_elite: false,
        crossover_rate: 700,
        selection_strategy: SelectionStrategy::Tournament { size: 3 },
        crossover_strategy: CrossoverStrategy::Uniform,
        mutation_strategy: MutationStrategy::Random,
    });

    let outcome = AttackOutcome {
        candidate: candidate("zero-limit", "docs/examples/demo.yaml", 0),
        fitness_score: 500,
        breach_observed: false,
        notes: None,
        statistics: stats_template(),
    };

    harness.record_outcome(outcome);
    assert_eq!(harness.archive.len(), 0);
}

#[test]
fn lineage_component_boosts_fitness() {
    let base_stats = RunStatistics {
        step_count: 20,
        avg_threat: 350,
        max_threat: 900,
        avg_cell_count: 10000,
        min_cell_count: 9,
        max_cell_count: 12,
        total_replications: 8,
        total_signals: 24,
        total_lineage_shifts: 0,
        total_stimulus: 600,
        signals_by_topic: table(vec![("activator", 20)]),
        lineage_by_type: table(vec![]),
        stimuli_by_topic: table(vec![("activator", 600)]),
    };
    let (baseline_fitness, baseline_breach) = compute_fitness(&base_stats);
    assert!(baseline_fitness > 0);
    assert!(!baseline_breach);
    assert_eq!(baseline_fitness, 241);

    let mut elevated_stats = base_stats;
    elevated_stats.total_lineage_shifts = 18;
    elevated_stats.lineage_by_type =
        table(vec![("AdaptiveProbe", 8), ("IntrusionDetection", 10)]);

    let (elevated_fitness, elevated_breach) = compute_fitness(&elevated_stats);
    assert!(
        elevated_fitness > baseline_fitness + 100,
        "expected {elevated_fitness} to significantly exceed {baseline_fitness}"
    );
    assert!(elevated_breach);
}

#[test]
fn recommendation_targets_lineage_churn_gap() {
    let stats = RunStatistics {
        step_count: 20,
        avg_threat: 600,
        max_threat: 1000,
        avg_cell_count: 11000,
        min_cell_count: 8,
        max_cell_count: 12,
        total_replications: 9,
        total_signals: 12,
        total_lineage_shifts: 2,
        total_stimulus: 0,
        signals_by_topic: table(vec![]),
        lineage_by_type: table(vec![("IntrusionDetection", 2)]),
        stimuli_by_topic: table(vec![]),
    };

    let (fitness, breach) = compute_fitness(&stats);
    assert!(fitness >= 400);
    assert!(!breach);

    let suggestion =
        recommend_mutation(&stats, fitness, breach).expect("expected lineage churn guidance");
    assert!(
        match suggestion {
            Mutation::IncreaseStimulus { ref topic, factor } => {
                topic == "activator" && factor == 1500
            }
            _ => false,
        },
        "expected suggestion to be IncreaseStimulus for activator: {suggestion:?}"
    );
}

#[test]
fn recommendation_focuses_dominant_lineage_when_diffuse() {
    let stats = RunStatistics {
        step_count: 20,
        avg_threat: 550,
        max_threat: 1000,
        avg_cell_count: 12000,
        min_cell_count: 9,
        max_cell_count: 14,
        total_replications: 6,
        total_signals: 18,
        total_lineage_shifts: 8,
        total_stimulus: 500,
        signals_by_topic: table(vec![]),
        lineage_by_type: table(vec![
            ("IntrusionDetection", 3),
            ("AdaptiveProbe", 3),
            ("Recon", 2),
        ]),
        stimuli_by_topic: table(vec![]),
    };

    let (fitness, breach) = compute_fitness(&stats);
    assert!(fitness > 400);
    assert!(!breach);

    let suggestion =
        recommend_mutation(&stats, fitness, breach).expect("expected dominant lineage focus");
    assert!(
        matches!(suggestion, Mutation::IncreaseStimulus { .. }),
        "expected focus guidance: {suggestion:?}"
    );
    if let Mutation::IncreaseStimulus { topic, .. } = suggestion {
        let lineages = ["IntrusionDetection", "AdaptiveProbe", "Recon"];
        assert!(
            lineages.iter().any(|lineage| topic == **lineage),
            "expected suggestion to reference a known lineage: {topic}"
        );
    }
}

#[test]
fn perform_crossover_creates_child() {
    let parent1_outcome = AttackOutcome {
        candidate: AttackCandidate {
            id: "parent1".to_string(),
            scenario_ref: "scenario1.yaml".to_string(),
            stimulus_ref: Some("p1-stimulus.jsonl".to_string()),
            generation: 1,
            parent_id: None,
            mutation: Some(Mutation::AddSpike {
                step: 10,
                intensity: 500,
            }),
        },
        fitness_score: 700,
        breach_observed: true,
        notes: None,
        statistics: stats_template(),
    };

    let parent2_outcome = AttackOutcome {
        candidate: AttackCandidate {
            id: "parent2".to_string(),
            scenario_ref: "scenario2.yaml".to_string(),
            stimulus_ref: Some("p2-stimulus.jsonl".to_string()),
            generation: 2,
            parent_id: None,
            mutation: Some(Mutation::IncreaseStimulus {
                topic: "activator".to_string(),
                factor: 1200,
            }),
        },
        fitness_score: 800,
        breach_observed: true,
        notes: None,
        statistics: stats_template(),
    };

    struct CombiningExecutor;
    impl Executor for CombiningExecutor {
        fn execute(
            &mut self,
            _candidate: &AttackCandidate,
        ) -> Result<ExecutionReport, HarnessError> {
            Err(HarnessError::Custom("not used".to_string()))
        }

        fn combine_stimulus(
            &mut self,
            _parent1: &AttackCandidate,
            _parent2: &AttackCandidate,
            child_id: &String,
            _generation: u32,
        ) -> Result<Option<String>, HarnessError> {
            Ok(Some(format!("combined-{child_id}.jsonl")))
        }
    }

    let mut executor = CombiningExecutor;
    let child = perform_crossover(
        &parent1_outcome,
        &parent2_outcome,
        &mut executor,
        &CrossoverStrategy::Uniform,
    )
    .expect("crossover failed");

    assert_eq!(child.scenario_ref, "scenario1.yaml");
    assert!(child.stimulus_ref.is_some());
    assert_eq!(child.generation, 3);
    assert!(child.id.starts_with("crossover-parent1-parent2-gen3"));
    assert!(child.mutation.is_some());
}

#[test]
fn test_perform_mutation() {
    let stats = stats_template();
    let mutation = perform_mutation(&MutationStrategy::Random, &stats, 500, false);
    assert!(mutation.is_some());
}

#[test]
fn settled_elite_is_requeued_with_mutation_cleared() {
    let mut harness = AdversarialHarness::new(EvolutionConfig {
        batch_size: 1,
        max_generations: 5,
        retain_elite: true,
        crossover_rate: 700,
        selection_strategy: SelectionStrategy::Tournament { size: 3 },
        crossover_strategy: CrossoverStrategy::Uniform,
        mutation_strategy: MutationStrategy::Random,
    });
    let mut seed = candidate("elite-keeper", "docs/examples/a.yaml", 2);
    seed.mutation = Some(Mutation::AddSpike {
        step: 1,
        intensity: 100,
    });
    // a settled run: good fitness, no breach, no recommendation
    let steps = vec![step_metrics(1, 1000, 10, 0, 0, 1, 0, vec![], vec![], vec![])];
    let (_, follow_up, analysis) = harness.evaluate_steps(seed, steps).expect("evaluation");
    assert!(analysis.recommended_mutation.is_none());
    assert!(follow_up.is_none());
    assert_eq!(harness.backlog_len(), 1);
    let requeued = harness.next_batch();
    assert_eq!(requeued.len(), 1);
    assert_eq!(requeued[0].id, "elite-keeper");
    assert_eq!(requeued[0].generation, 2);
    assert!(requeued[0].mutation.is_none());
}

#[test]
fn executor_error_aborts_loop_and_keeps_archive() {
    struct FailingSecondExecutor {
        calls: u32,
    }
    impl Executor for FailingSecondExecutor {
        fn execute(
            &mut self,
            candidate: &AttackCandidate,
        ) -> Result<ExecutionReport, HarnessError> {
            self.calls += 1;
            if self.calls >= 2 {
                return Err(HarnessError::Custom(format!(
                    "executor refused `{}`",
                    candidate.id
                )));
            }
            Ok(ExecutionReport {
                steps: vec![step_metrics(0, 300, 4, 1, 0, 0, 0, vec![], vec![], vec![])],
                telemetry_path: None,
                metrics_path: None,
                stimulus_path: None,
            })
        }

        fn combine_stimulus(
            &mut self,
            _parent1: &AttackCandidate,
            _parent2: &AttackCandidate,
            _child_id: &String,
            _generation: u32,
        ) -> Result<Option<String>, HarnessError> {
            Ok(None)
        }
    }

    let mut harness = AdversarialHarness::new(EvolutionConfig {
        batch_size: 1,
        max_generations: 5,
        retain_elite: false,
        crossover_rate: 700,
        selection_strategy: SelectionStrategy::Tournament { size: 3 },
        crossover_strategy: CrossoverStrategy::Uniform,
        mutation_strategy: MutationStrategy::Random,
    });
    harness.enqueue(candidate("ok-seed", "docs/examples/a.yaml", 0));
    harness.enqueue(candidate("bad-seed", "docs/examples/b.yaml", 0));

    let mut executor = FailingSecondExecutor { calls: 0 };
    let result = harness.run_generations(3, &mut executor);
    // the second candidate's error propagates and aborts the loop
    assert!(matches!(result, Err(HarnessError::Custom(ref m)) if m.contains("bad-seed")));
    // the first candidate's outcome, recorded before the failure, stays
    assert_eq!(harness.archive_len(), 1);
    assert_eq!(harness.archive[0].candidate.id, "ok-seed");
    // the aborted round bred nothing: only the first evaluation's follow-up
    // is queued
    assert!(harness.backlog_len() <= 1);
}
