use opdev::acceptance::TrackedEvidence;
use opdev::adoption::{completion_blockers_of, verified_blockers, AdoptionDecision, AdoptionRecord, AdoptionState};
use opdev::evaluator::{
    junit_not_run, limit_junit_history, validate_junit_bindings, CheckKind, CheckReport, CheckResult, EvaluationError,
    Execution, GateVerdict, JunitBinding, RuleResult,
};
use opdev::execution::{observe_test_execution, revision_valid};
use opdev::manifest::{
    CiConfig, CiProvider, Delivery, DeliveryStatus, Operations, Project, ProjectManifest, TestStage, TestSuite, Testing,
};
use opdev::outcome::{AggregateVerdict, Evidence, Gate, Outcome, VerificationSource};

fn manifest(suites: Vec<TestSuite>) -> ProjectManifest {
    ProjectManifest {
        project: Project {
            trunk: "main".into(),
            ci: CiConfig { provider: CiProvider::Github, remote: None, qualification: None },
        },
        authorities: vec![],
        risks: vec![],
        testing: Testing { suites, coverage_mode: None },
        delivery: Delivery {
            status: DeliveryStatus::Configured,
            mode: "continuous_delivery".into(),
            artifact_locator: "registry".into(),
        },
        operations: Operations { health_evidence: None, observability_authority: None },
        extensions: vec![],
    }
}

fn suite(id: &str, stages: Vec<TestStage>) -> TestSuite {
    TestSuite { id: id.into(), command: "test".into(), stages }
}

fn binding(suite: &str, path: &str) -> JunitBinding {
    JunitBinding { suite: suite.into(), path: path.into() }
}

#[test]
fn junit_bindings_need_unique_suites_at_the_stage_and_a_path() {
    let m = manifest(vec![suite("unit", vec![TestStage::Local, TestStage::PreMerge]), suite("e2e", vec![TestStage::PostMerge])]);
    assert!(validate_junit_bindings(&m, TestStage::PreMerge, &[]).is_ok());
    assert!(validate_junit_bindings(&m, TestStage::PreMerge, &[binding("unit", "junit.xml")]).is_ok());
    for bad in [
        vec![binding("unit", "")],
        vec![binding("unit", "a.xml"), binding("unit", "b.xml")],
        vec![binding("e2e", "a.xml")],
        vec![binding("missing", "a.xml")],
    ] {
        match validate_junit_bindings(&m, TestStage::PreMerge, &bad) {
            Err(EvaluationError::JunitBinding(message)) => assert_eq!(
                message,
                "each binding needs a unique suite at the selected stage and a nonempty path"
            ),
            Ok(()) => panic!("accepted an invalid binding"),
        }
    }
}

#[test]
fn bound_suites_that_did_not_run_stay_unverified() {
    let r = junit_not_run(&binding("unit", "junit.xml"), TestStage::PreMerge);
    assert_eq!(r.id, "unit");
    assert_eq!(r.kind, CheckKind::Suite);
    assert!(r.blocking);
    assert_eq!(r.gates, vec![Gate::Integration]);
    assert_eq!(r.outcome, Outcome::Unverified);
    assert!(r.evidence.is_empty());
}

fn rule(id: &str, outcome: Outcome, evidence: Vec<Evidence>) -> RuleResult {
    RuleResult {
        rule_id: id.into(),
        catalog_version: 1,
        outcome,
        subject: "project".into(),
        verifier: VerificationSource::Evidence,
        evaluated_at: 7,
        evidence,
        diagnostic: None,
    }
}

#[test]
fn bound_reports_cannot_establish_retry_history() {
    let mut rules = vec![
        rule("OPDEV-TEST-001", Outcome::Passed, vec![]),
        rule("OPDEV-TEST-005", Outcome::Passed, vec![Evidence { kind: "policy".into(), summary: "s".into(), location: None }]),
    ];
    limit_junit_history(&mut rules, false);
    assert_eq!(rules[1].outcome, Outcome::Passed);
    limit_junit_history(&mut rules, true);
    assert_eq!(rules[0].outcome, Outcome::Passed);
    assert_eq!(rules[1].outcome, Outcome::Unverified);
    assert_eq!(rules[1].verifier, VerificationSource::Command);
    assert!(rules[1].evidence.is_empty());
    assert_eq!(rules[1].evaluated_at, 7);
    assert_eq!(
        rules[1].diagnostic.as_deref(),
        Some("Required JUnit evidence cannot establish complete producer-internal retry/quarantine history; inspect the bound suite results")
    );
}

fn check(id: &str, outcome: Outcome) -> CheckResult {
    CheckResult {
        id: id.into(),
        kind: CheckKind::Suite,
        blocking: true,
        gates: vec![Gate::Integration],
        outcome,
        summary: "s".into(),
        evidence: vec![],
        stdout: None,
        stderr: None,
        duration_ms: None,
    }
}

fn gate(gate: Gate, verdict: AggregateVerdict) -> GateVerdict {
    GateVerdict { gate, verdict, blocking_rules: vec![], blocking_checks: vec![] }
}

fn decision(suites: &[&str]) -> AdoptionDecision {
    AdoptionDecision {
        state: AdoptionState::Implemented,
        owner: "team".into(),
        reason: "reviewed".into(),
        references: vec!["review.md".into()],
        suites: suites.iter().map(|s| s.to_string()).collect(),
        research: vec![],
    }
}

#[test]
fn completion_requires_current_review_and_all_core_gates() {
    let delivery = Evidence { kind: "delivery_gate".into(), summary: "release".into(), location: Some("ci.yml".into()) };
    let mut report = CheckReport {
        schema: 1,
        catalog_version: 1,
        subject: "project".into(),
        evaluated_at: 1,
        rules: vec![rule("MCD-PIPELINE-001", Outcome::Passed, vec![delivery])],
        checks: vec![check("unit", Outcome::Passed), check("e2e", Outcome::Failed)],
        gates: vec![
            gate(Gate::Development, AggregateVerdict::Passed),
            gate(Gate::Integration, AggregateVerdict::Passed),
            gate(Gate::Delivery, AggregateVerdict::Passed),
            gate(Gate::Compliance, AggregateVerdict::Passed),
        ],
    };
    let record = AdoptionRecord {
        schema: 1,
        catalog_version: 1,
        scope: "all".into(),
        practices: vec![("testing".into(), decision(&["unit"]))],
    };
    assert!(completion_blockers_of(&report, &record).is_empty());
    assert!(verified_blockers(&report, &record, Some("t1"), Some("t1"), b"ledger", b"ledger").is_empty());
    assert_eq!(
        verified_blockers(&report, &record, Some("t1"), Some("t2"), b"ledger", b"ledger"),
        vec!["repository or reviewed evidence changed during verification; stage and review again".to_string()]
    );
    assert_eq!(verified_blockers(&report, &record, Some("t1"), None, b"ledger", b"ledger").len(), 1);
    assert_eq!(
        verified_blockers(&report, &record, Some("t1"), Some("t1"), b"ledger", b"ledger, edited"),
        vec!["repository or reviewed evidence changed during verification; stage and review again".to_string()]
    );
    assert_eq!(verified_blockers(&report, &record, None, None, b"abc", b"abd").len(), 1);
    report.gates[2].verdict = AggregateVerdict::Blocked;
    report.rules[0].evidence[0].location = Some("  ".into());
    let failing = AdoptionRecord {
        schema: 1,
        catalog_version: 1,
        scope: "all".into(),
        practices: vec![("testing".into(), decision(&["unit", "e2e", "absent"]))],
    };
    assert_eq!(
        completion_blockers_of(&report, &failing),
        vec![
            "delivery: review the actual release/tag publication dependency path and provide MCD-PIPELINE-001 delivery_gate evidence; integration-only CI is insufficient".to_string(),
            "core gate Delivery is blocked".to_string(),
            "suite `e2e` did not pass in this evaluation".to_string(),
            "suite `absent` did not pass in this evaluation".to_string(),
        ]
    );
    report.gates.clear();
    assert_eq!(completion_blockers_of(&report, &record).len(), 5);
}

fn execution(exit_code: Option<i32>, timed_out: bool) -> Execution {
    Execution { exit_code, timed_out, stdout: String::new(), stderr: String::new(), duration_ms: 12 }
}

fn receipt(run: Result<Execution, String>, after: Option<&str>) -> opdev::execution::TestExecutionReceipt {
    observe_test_execution(
        "opdev-attempt-1".into(),
        "unit".into(),
        "test".into(),
        b"{}",
        5,
        "a".repeat(40),
        run,
        after.map(str::to_string),
    )
}

#[test]
fn execution_receipts_never_qualify_and_keep_source_changes_visible() {
    let a = "a".repeat(40);
    let passed = receipt(Ok(execution(Some(0), false)), Some(&a));
    assert_eq!((passed.command_outcome, passed.outcome), (Outcome::Passed, Outcome::Passed));
    assert_eq!(passed.qualification, Outcome::Unverified);
    assert!(passed.source_unchanged);
    assert_eq!(passed.duration_ms, Some(12));
    assert_eq!(passed.diagnostics.len(), 1);
    assert_eq!(passed.command_sha256, "44136fa355b3678a1146ad16f7e8649e94fb4fc21fe77e8310c060f61caaff8a");
    let moved = receipt(Ok(execution(Some(0), false)), Some(&"b".repeat(40)));
    assert_eq!(moved.outcome, Outcome::Unverified);
    assert_eq!(moved.diagnostics[0], "Source identity changed or could not be verified after execution.");
    let failed = receipt(Ok(execution(Some(1), false)), None);
    assert_eq!((failed.command_outcome, failed.outcome), (Outcome::Failed, Outcome::Failed));
    let slow = receipt(Ok(execution(None, true)), Some(&a));
    assert_eq!(slow.outcome, Outcome::Error);
    assert_eq!(slow.diagnostics[0], "Canonical command exceeded its timeout.");
    let broken = receipt(Err("missing program".into()), Some(&a));
    assert_eq!(broken.outcome, Outcome::Error);
    assert_eq!(broken.exit_code, None);
    assert_eq!(broken.diagnostics[0], "Canonical command execution failed; no successful exit was observed.");
}

#[test]
fn revisions_must_be_full_hexadecimal_commits() {
    assert!(revision_valid(&"a".repeat(40)));
    assert!(revision_valid(&"F".repeat(64)));
    assert!(!revision_valid(&"a".repeat(41)));
    assert!(!revision_valid(&format!("{}g", "a".repeat(39))));
    assert!(!revision_valid("HEAD"));
}

fn reference() -> TrackedEvidence {
    TrackedEvidence {
        path: "docs/req.md".into(),
        sha256: "8f12e1d30dbb7b0b9d7b5a34c5ea3b6e9f0ac7e8a1a1e98f7adccc5e9d2a2a1f".into(),
        excerpt: "shall".into(),
    }
}

#[test]
fn staged_references_must_name_one_regular_file() {
    let t = reference();
    assert!(t.verify_entry("100644 abc 0\tdocs/req.md\0").is_ok());
    assert!(t.verify_entry("100755 abc 0\tdocs/req.md\0").is_ok());
    assert!(t.verify_entry("120000 abc 0\tdocs/req.md\0").is_err());
    assert!(t.verify_entry("100644 abc 1\tdocs/req.md\0").is_err());
    assert!(t.verify_entry("100644 abc 0\tdocs/req.md\0100644 abc 0\tdocs/req.md\0").is_err());
    assert!(t.verify_entry("").is_err());
}

#[test]
fn staged_sizes_are_bounded() {
    assert_eq!(TrackedEvidence::verify_size(" 42\n").unwrap(), 42);
    assert_eq!(TrackedEvidence::verify_size("+8388608").unwrap(), 8388608);
    assert!(TrackedEvidence::verify_size("8388609").is_err());
    assert!(TrackedEvidence::verify_size("99999999999999999999999").is_err());
    assert!(TrackedEvidence::verify_size("").is_err());
    assert!(TrackedEvidence::verify_size("-1").is_err());
    assert!(TrackedEvidence::verify_size("4 2").is_err());
}

#[test]
fn staged_content_must_match_digest_and_excerpt() {
    let bytes = b"The system shall log.\n";
    let mut t = reference();
    assert!(t.verify_blob(bytes).is_err());
    t.sha256 = "151d5981b7ca510db0397ab692301783ea4f7663fa8b329eb0241302ee31a4fd".into();
    assert!(t.verify_blob(bytes).is_ok());
    t.excerpt = "must".into();
    assert!(t.verify_blob(bytes).is_err());
    t.excerpt = "shall".into();
    assert!(t.verify_blob(&[0xff, 0xfe]).is_err());
}

// ---------------------------------------------------------------------------
// Acceptance verdicts

use opdev::acceptance::{
    AcceptanceCondition, AcceptanceEvidence, AcceptanceMethod, AcceptanceReview, AcceptanceScope,
    AcceptanceVerification, EvidenceError,
};
use opdev::acceptance_check::{acceptance_result, evaluate_acceptance, reference_outcome, AcceptanceChange};

#[test]
fn verifier_failures_are_not_missing_evidence_or_product_failures() {
    assert_eq!(reference_outcome(&Err(EvidenceError::Git("tool unavailable".into()))), Outcome::Error);
    assert_eq!(reference_outcome(&Err(EvidenceError::Semantic("stale excerpt".into()))), Outcome::Unverified);
    assert_eq!(acceptance_result(false, true, true).0, Outcome::Error);
    assert_eq!(acceptance_result(true, true, true).0, Outcome::Failed);
}

fn acceptance(payload: &[u8], mapping_outcome: Outcome) -> AcceptanceEvidence {
    AcceptanceEvidence {
        scope: AcceptanceScope::Behavioral,
        rationale: "changes login".into(),
        conditions: vec![AcceptanceCondition {
            id: "R1".into(),
            statement: "Users can log in".into(),
            authority: "issue 1".into(),
            source: reference(),
        }],
        verifications: vec![AcceptanceVerification {
            condition: "R1".into(),
            method: AcceptanceMethod::Automated,
            target: reference(),
            assertion: "login works".into(),
            discriminating_case: "wrong password".into(),
            suite: Some("unit".into()),
            automation_limitation: None,
            outcome: mapping_outcome,
        }],
        review: AcceptanceReview {
            outcome: Outcome::Passed,
            reviewer: "A. Person".into(),
            reference: "review:1".into(),
            rationale: "checked".into(),
            subject_sha256: sha_of(payload),
        },
    }
}

fn sha_of(payload: &[u8]) -> String {
    opdev::upgrade::plan_identity(payload)
}

#[test]
fn green_suite_cannot_hide_missing_pending_or_contradicted_mappings() {
    let m = manifest(vec![suite("unit", vec![TestStage::PreMerge])]);
    let payload = b"payload";
    let change = |outcome| Some(AcceptanceChange { work: "W-1".into(), acceptance: Some(acceptance(payload, outcome)) });
    let passed = vec![check("unit", Outcome::Passed)];
    let ok: Vec<Result<(), EvidenceError>> = vec![Ok(())];
    let verdict = |checks: &[CheckResult], c: &Option<AcceptanceChange>, fresh, p: Option<&[u8]>, s: &[Result<(), EvidenceError>]| {
        evaluate_acceptance(&m, checks, c, fresh, p, s, &[Ok(())]).0
    };
    assert_eq!(verdict(&passed, &change(Outcome::Passed), true, Some(payload), &ok), Outcome::Passed);
    assert_eq!(verdict(&passed, &change(Outcome::Passed), false, Some(payload), &ok), Outcome::Unverified);
    assert_eq!(verdict(&passed, &None, true, Some(payload), &ok), Outcome::Unverified);
    assert_eq!(verdict(&passed, &change(Outcome::Passed), true, Some(b"other"), &ok), Outcome::Unverified);
    assert_eq!(verdict(&passed, &change(Outcome::Unverified), true, Some(payload), &ok), Outcome::Unverified);
    assert_eq!(verdict(&passed, &change(Outcome::Failed), true, Some(payload), &ok), Outcome::Failed);
    assert_eq!(verdict(&[check("unit", Outcome::Failed)], &change(Outcome::Passed), true, Some(payload), &ok), Outcome::Failed);
    assert_eq!(verdict(&[], &change(Outcome::Passed), true, Some(payload), &ok), Outcome::Unverified);
    let broken = vec![Err(EvidenceError::Read { path: "docs/req.md".into(), reason: "denied".into() })];
    assert_eq!(verdict(&passed, &change(Outcome::Passed), true, Some(payload), &broken), Outcome::Error);
}

#[test]
fn legacy_and_generic_pass_assertions_do_not_satisfy_acceptance() {
    let m = manifest(vec![suite("acceptance", vec![TestStage::PreMerge])]);
    let passed = vec![check("acceptance", Outcome::Passed)];
    let payload = b"payload";
    // A schema-1 ledger has no current schema-2 change; generic policy
    // assertions are not acceptance evidence of any kind.
    let (outcome, _, reason) = evaluate_acceptance(&m, &passed, &None, true, Some(payload), &[], &[]);
    assert_eq!(passed[0].outcome, Outcome::Passed);
    assert_eq!(outcome, Outcome::Unverified);
    assert!(reason.contains("generic or schema-1 assertions cannot qualify TEST-002/003"));
    let without = Some(AcceptanceChange { work: "W-1".into(), acceptance: None });
    let (outcome, _, _) = evaluate_acceptance(&m, &passed, &without, true, Some(payload), &[], &[]);
    assert_eq!(outcome, Outcome::Unverified);
}

#[test]
fn non_code_review_requires_specific_evidence_and_limits() {
    let m = manifest(vec![suite("unit", vec![TestStage::PreMerge])]);
    let payload = b"payload";
    let mut a = acceptance(payload, Outcome::Passed);
    a.scope = AcceptanceScope::NonBehavioral;
    a.rationale = "Synthetic editorial-only evidence fixture".into();
    a.verifications[0].method = AcceptanceMethod::Review;
    a.verifications[0].suite = None;
    a.verifications[0].automation_limitation = Some("Human wording review, not runtime qualification".into());
    let change = Some(AcceptanceChange { work: "W-1".into(), acceptance: Some(a) });
    // No suite ran: a review-only mapping needs no execution.
    let (outcome, scope, reason) = evaluate_acceptance(&m, &[], &change, true, Some(payload), &[Ok(())], &[Ok(())]);
    assert_eq!(outcome, Outcome::Passed);
    assert_eq!(scope, AcceptanceScope::NonBehavioral);
    assert!(reason.contains("Review-only mappings do not imply execution"));
}
