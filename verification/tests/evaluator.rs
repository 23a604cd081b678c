use opdev::ledger::EvidenceAssertion;
use opdev::evaluator::{evaluate, CheckOptions, Execution, ExtensionRun, Rule, RuleCatalog};
use opdev::manifest::{
    CiConfig, CiProvider, Delivery, DeliveryStatus, Operations, Project, ProjectManifest, TestStage, TestSuite, Testing,
};
use opdev::outcome::{Gate, Outcome, VerificationSource};

fn rule(id: &str, gates: Vec<Gate>) -> Rule {
    Rule { id: id.into(), gates, applicability: format!("{id} applies to the project") }
}

fn catalog() -> RuleCatalog {
    RuleCatalog {
        catalog_version: 1,
        rules: vec![
            rule("OPDEV-AUTH-001", vec![Gate::Development]),
            rule("MCD-CI-001", vec![Gate::Integration]),
            rule("MCD-TRUNK-001", vec![Gate::Integration]),
            rule("MCD-DELIVERY-001", vec![Gate::Delivery]),
            rule("OPDEV-TEST-001", vec![Gate::Development]),
            rule("OPDEV-TEST-006", vec![Gate::Development]),
            rule("OPDEV-A11Y-001", vec![Gate::Compliance]),
            rule("OPDEV-OPS-001", vec![Gate::Delivery]),
            rule("OPDEV-EVAL-001", vec![Gate::Compliance]),
            rule("OPDEV-EXT-001", vec![Gate::Development]),
        ],
    }
}

fn manifest() -> ProjectManifest {
    ProjectManifest {
        project: Project {
            trunk: "main".into(),
            ci: CiConfig { provider: CiProvider::Gitlab, remote: None, qualification: None },
        },
        authorities: vec!["implementation".into()],
        risks: vec!["functional".into()],
        testing: Testing {
            suites: vec![TestSuite { id: "check".into(), command: "check".into(), stages: vec![TestStage::Local] }],
            coverage_mode: None,
        },
        delivery: Delivery {
            status: DeliveryStatus::MigrationRequired,
            mode: "Publish".into(),
            artifact_locator: "registry:unconfigured".into(),
        },
        operations: Operations { health_evidence: None, observability_authority: None },
        extensions: vec![],
    }
}

fn no_execution() -> CheckOptions {
    let mut options = CheckOptions::local();
    options.execute_checks = false;
    options
}

fn unexecuted(project: &ProjectManifest) -> opdev::evaluator::CheckReport {
    let runs: Vec<Result<Execution, String>> = vec![];
    let extensions: Vec<ExtensionRun> = vec![];
    evaluate("fixture", project, no_execution(), &catalog(), 0, &None, &vec![], runs, extensions, "1")
}

#[test]
fn software_kind_and_missing_configuration_do_not_prove_inapplicability() {
    // The contract's software kind is not among what the evaluation reads, so
    // no kind can settle these rules.
    let project = manifest();
    let report = unexecuted(&project);
    for id in ["MCD-TRUNK-001", "OPDEV-A11Y-001", "OPDEV-OPS-001", "OPDEV-EVAL-001"] {
        assert_eq!(
            report.rules.iter().find(|r| r.rule_id.as_str() == id).expect("rule").outcome,
            Outcome::Unverified,
            "{id}"
        );
    }
}

#[test]
fn missing_suite_program_is_an_error_and_blocks_development() {
    let runs: Vec<Result<Execution, String>> = vec![Err("No such file or directory (os error 2)".into())];
    let extensions: Vec<ExtensionRun> = vec![];
    let report = evaluate("fixture", &manifest(), CheckOptions::local(), &catalog(), 0, &None, &vec![], runs, extensions, "1");
    assert_eq!(report.checks[0].outcome, Outcome::Error);
    assert!(!report.gate_passed(Gate::Development));
}

#[test]
fn every_catalog_rule_has_exactly_one_result() {
    let report = unexecuted(&manifest());
    assert_eq!(report.rules.len(), catalog().rules.len());
    for (result, rule) in report.rules.iter().zip(catalog().rules.iter()) {
        assert_eq!(result.rule_id, rule.id);
    }
    assert!(report.rules.iter().any(|result| result.outcome == Outcome::Unverified));
}

#[test]
fn configured_delivery_declares_the_single_ci_governed_path() {
    let mut project = manifest();
    project.delivery.status = DeliveryStatus::Configured;
    let report = unexecuted(&project);
    let result = report
        .rules
        .iter()
        .find(|result| result.rule_id.as_str() == "MCD-DELIVERY-001")
        .expect("missing delivery rule result");
    assert_eq!(result.outcome, Outcome::Passed);
    assert_eq!(result.verifier, VerificationSource::Manifest);
    assert_eq!(
        result.evidence[0].summary,
        "The configured Publish delivery contract uses Gitlab CI for the consumer path `registry:unconfigured`"
    );
}

#[test]
fn marked_delivery_migration_is_not_unverified() {
    let report = unexecuted(&manifest());
    let result = report.rules.iter().find(|r| r.rule_id.as_str() == "MCD-DELIVERY-001").expect("rule");
    assert_eq!(result.outcome, Outcome::MigrationRequired);
    let coverage = report.rules.iter().find(|r| r.rule_id.as_str() == "OPDEV-TEST-006").expect("rule");
    assert_eq!(coverage.outcome, Outcome::NotApplicable);
    assert!(report.checks.is_empty());
}

use opdev::evaluator::{
    evaluate_with_junit, find_binding, junit_suite_result, EvaluationError, JunitBinding, JunitObservation, SuiteRun,
};
use opdev::manifest::TestStage as Stage;

fn binding() -> JunitBinding {
    JunitBinding { suite: "check".into(), path: "reports/junit.xml".into() }
}

fn observation(outcome: Outcome, receipt: Option<&str>) -> JunitObservation {
    JunitObservation { outcome, duration_ms: Some(12), receipt: receipt.map(str::to_string) }
}

#[test]
fn bound_suite_observations_never_pass_by_themselves() {
    let passed = junit_suite_result(&binding(), Stage::Local, Some("opdev-attempt-1".into()), Ok(observation(Outcome::Passed, Some("{}"))));
    assert_eq!(passed.outcome, Outcome::Unverified);
    assert_eq!(passed.evidence.len(), 2);
    assert_eq!(passed.evidence[0].kind, "test_execution_attempt");
    assert_eq!(passed.evidence[0].summary, "opdev-attempt-1");
    assert_eq!(passed.evidence[1].kind, "test_execution_receipt_v1");
    assert_eq!(passed.duration_ms, Some(12));
    assert_eq!(
        passed.summary,
        "Command/report observations retained; complete retry/quarantine history and CI identity remain unverified"
    );
    let failed = junit_suite_result(&binding(), Stage::Local, Some("a".into()), Ok(observation(Outcome::Failed, None)));
    assert_eq!(failed.outcome, Outcome::Failed);
    assert_eq!(failed.stderr.as_deref(), Some("Could not encode the execution receipt"));
    let unencoded = junit_suite_result(&binding(), Stage::Local, Some("a".into()), Ok(observation(Outcome::Passed, None)));
    assert_eq!(unencoded.outcome, Outcome::Error);
    let refused = junit_suite_result(&binding(), Stage::Local, Some("a".into()), Err("report path escapes the root".into()));
    assert_eq!(refused.outcome, Outcome::Error);
    assert_eq!(refused.summary, "JUnit execution precondition failed; no command was run");
    assert_eq!(refused.stderr.as_deref(), Some("report path escapes the root"));
    let unidentified = junit_suite_result(&binding(), Stage::Local, None, Ok(observation(Outcome::Passed, Some("{}"))));
    assert_eq!(unidentified.outcome, Outcome::Error);
    assert!(unidentified.evidence.is_empty());
    assert_eq!(unidentified.summary, "Could not allocate an execution identity; no command was run");
}

fn with_history_rule() -> RuleCatalog {
    let mut catalog = catalog();
    catalog.rules.push(rule("OPDEV-TEST-005", vec![Gate::Development]));
    catalog
}

#[test]
fn bindings_are_refused_before_anything_runs_and_limit_history() {
    let project = manifest();
    let bad = vec![JunitBinding { suite: "absent".into(), path: "x.xml".into() }];
    match evaluate_with_junit("fixture", &project, no_execution(), &with_history_rule(), 0, &None, &vec![], &bad, vec![], vec![], "1") {
        Err(EvaluationError::JunitBinding(message)) => {
            assert_eq!(message, "each binding needs a unique suite at the selected stage and a nonempty path")
        }
        Ok(_) => panic!("invalid binding accepted"),
    }
    let bound = vec![binding()];
    let report = evaluate_with_junit("fixture", &project, no_execution(), &with_history_rule(), 0, &None, &vec![], &bound, vec![], vec![], "1")
        .expect("valid bindings");
    assert_eq!(report.checks.len(), 1);
    assert_eq!(report.checks[0].id, "check");
    assert_eq!(report.checks[0].outcome, Outcome::Unverified);
    let history = report.rules.iter().find(|r| r.rule_id == "OPDEV-TEST-005").expect("rule");
    assert_eq!(history.outcome, Outcome::Unverified);
    assert_eq!(history.verifier, VerificationSource::Command);
    assert!(!report.gate_passed(Gate::Development));

    let unbound = evaluate_with_junit("fixture", &project, no_execution(), &with_history_rule(), 0, &None, &vec![], &[], vec![], vec![], "1")
        .expect("no bindings");
    let history = unbound.rules.iter().find(|r| r.rule_id == "OPDEV-TEST-005").expect("rule");
    assert_eq!(history.outcome, Outcome::Passed);
    assert!(unbound.checks.is_empty());
}

#[test]
fn bound_suites_are_observed_and_others_run_their_commands() {
    let project = manifest();
    let bound = vec![binding()];
    assert_eq!(find_binding(&bound, "check"), Some(0));
    assert_eq!(find_binding(&bound, "other"), None);
    let runs = vec![SuiteRun::Junit(Some("a".into()), Ok(observation(Outcome::Passed, Some("{}"))))];
    let extensions: Vec<ExtensionRun> = vec![];
    let report =
        evaluate_with_junit("fixture", &project, CheckOptions::local(), &with_history_rule(), 0, &None, &vec![], &bound, runs, extensions, "1")
            .expect("valid bindings");
    assert_eq!(report.checks.len(), 1);
    assert_eq!(report.checks[0].outcome, Outcome::Unverified);
    assert_eq!(report.checks[0].evidence[0].kind, "test_execution_attempt");

    let runs = vec![SuiteRun::Command(Ok(Execution {
        exit_code: Some(0),
        timed_out: false,
        stdout: String::new(),
        stderr: String::new(),
        duration_ms: 3,
    }))];
    let report =
        evaluate_with_junit("fixture", &project, CheckOptions::local(), &with_history_rule(), 0, &None, &vec![], &[], runs, vec![], "1")
            .expect("no bindings");
    assert_eq!(report.checks[0].outcome, Outcome::Passed);
}

#[test]
fn executed_checks_never_change_core_rule_results_or_their_blockers() {
    let quiet = unexecuted(&manifest());
    let runs: Vec<Result<Execution, String>> = vec![Err("No such file or directory (os error 2)".into())];
    let extensions: Vec<ExtensionRun> = vec![];
    let loud = evaluate("fixture", &manifest(), CheckOptions::local(), &catalog(), 9, &None, &vec![], runs, extensions, "1");
    assert_eq!(quiet.rules.len(), loud.rules.len());
    for (a, b) in quiet.rules.iter().zip(loud.rules.iter()) {
        assert_eq!(a.rule_id, b.rule_id);
        assert_eq!(a.outcome, b.outcome);
        assert_eq!(a.verifier, b.verifier);
        assert_eq!(a.diagnostic, b.diagnostic);
        assert_eq!(a.evidence.len(), b.evidence.len());
    }
    assert_eq!(quiet.checks.len(), 0);
    assert_eq!(loud.checks.len(), 1);
    for (a, b) in quiet.gates.iter().zip(loud.gates.iter()) {
        assert_eq!(a.gate, b.gate);
        assert_eq!(a.blocking_rules, b.blocking_rules);
    }
    // The failed suite adds a blocking check to development; no rule changes.
    assert!(quiet.gates[0].blocking_checks.is_empty());
    assert_eq!(loud.gates[0].blocking_checks, vec!["check".to_string()]);
}

#[test]
fn recorded_assertions_settle_only_rules_the_contract_left_unverified() {
    let plain = unexecuted(&manifest());
    let settled = plain.rules.iter().find(|r| r.outcome != Outcome::Unverified).expect("a settled rule").rule_id.clone();
    let project = vec![
        EvidenceAssertion { rule_id: "MCD-TRUNK-001".into(), outcome: Outcome::Passed, summary: "single trunk reviewed".into(), evidence: vec![] },
        EvidenceAssertion { rule_id: settled.clone(), outcome: Outcome::Failed, summary: "contradiction".into(), evidence: vec![] },
    ];
    let runs: Vec<Result<Execution, String>> = vec![];
    let extensions: Vec<ExtensionRun> = vec![];
    let report = evaluate("fixture", &manifest(), no_execution(), &catalog(), 0, &None, &project, runs, extensions, "1");
    let find = |r: &opdev::evaluator::CheckReport, id: &str| r.rules.iter().position(|x| x.rule_id == id).expect("rule");
    let trunk = find(&report, "MCD-TRUNK-001");
    assert_eq!(plain.rules[trunk].outcome, Outcome::Unverified);
    assert_eq!(report.rules[trunk].outcome, Outcome::Passed);
    assert_eq!(report.rules[trunk].verifier, VerificationSource::Evidence);
    assert_eq!(report.rules[trunk].evidence[0].summary, "single trunk reviewed");
    // A rule the contract settled keeps its result whatever was recorded.
    let other = find(&report, &settled);
    assert_eq!(report.rules[other].outcome, plain.rules[other].outcome);
    assert_eq!(report.rules[other].verifier, plain.rules[other].verifier);
    assert!(!report.gates[1].blocking_rules.iter().any(|r| r == "MCD-TRUNK-001"));
    assert!(plain.gates[1].blocking_rules.iter().any(|r| r == "MCD-TRUNK-001"));
}
