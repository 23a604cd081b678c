use opdev::evaluator::{CheckKind, CheckReport, CheckResult, GateVerdict, Rule, RuleCatalog, RuleResult};
use opdev::outcome::{AggregateVerdict, Gate, Outcome, VerificationSource};
use opdev::views::{
    all_gates_passed, project_report, reaggregate, validate_report, Excerpt, ReportError, ReportSource, EXCERPT_CHARS,
};

fn catalog() -> RuleCatalog {
    RuleCatalog {
        catalog_version: 3,
        rules: vec![
            Rule {
                id: "OPDEV-AUTH-001".into(),
                gates: vec![Gate::Development, Gate::Compliance],
                applicability: "Authoritative sources are declared".into(),
            },
            Rule {
                id: "MCD-CI-001".into(),
                gates: vec![Gate::Integration],
                applicability: "A CI provider is configured".into(),
            },
            Rule {
                id: "MCD-DELIVERY-001".into(),
                gates: vec![Gate::Delivery],
                applicability: "Delivery is configured".into(),
            },
        ],
    }
}

fn report() -> CheckReport {
    let catalog = catalog();
    let rules = catalog
        .rules
        .iter()
        .map(|rule| RuleResult {
            rule_id: rule.id.clone(),
            catalog_version: catalog.catalog_version,
            outcome: Outcome::Passed,
            subject: "fixture".into(),
            verifier: VerificationSource::Manifest,
            evaluated_at: 42,
            evidence: vec![],
            diagnostic: None,
        })
        .collect();
    let mut report = CheckReport {
        schema: 1,
        catalog_version: catalog.catalog_version,
        subject: "fixture".into(),
        evaluated_at: 42,
        rules,
        checks: vec![],
        gates: vec![],
    };
    reaggregate(&mut report, &catalog);
    report
}

fn source() -> ReportSource {
    ReportSource { path: "full.json".into(), sha256: "fixture-digest".into() }
}

fn same_gates(a: &[GateVerdict], b: &[GateVerdict]) -> bool {
    a.len() == b.len()
        && a.iter().zip(b).all(|(x, y)| {
            x.gate == y.gate
                && x.verdict == y.verdict
                && x.blocking_rules == y.blocking_rules
                && x.blocking_checks == y.blocking_checks
        })
}

fn check(id: &str, kind: CheckKind, blocking: bool, outcome: Outcome) -> CheckResult {
    CheckResult {
        id: id.into(),
        kind,
        blocking,
        gates: vec![Gate::Development],
        outcome,
        summary: "result".into(),
        evidence: vec![],
        stdout: Some("details".into()),
        stderr: None,
        duration_ms: Some(7),
    }
}

#[test]
fn projections_preserve_every_outcome_and_all_gate_blockers() {
    for outcome in [
        Outcome::Passed,
        Outcome::Failed,
        Outcome::Unverified,
        Outcome::NotApplicable,
        Outcome::Error,
        Outcome::MigrationRequired,
    ] {
        let mut report = report();
        report.rules[0].outcome = outcome;
        report.rules[1].outcome = Outcome::Unverified;
        report.checks = [true, false]
            .into_iter()
            .map(|blocking| {
                check("shared", if blocking { CheckKind::Suite } else { CheckKind::Extension }, blocking, outcome)
            })
            .collect();
        reaggregate(&mut report, &catalog());
        let summary = project_report(&report, &catalog(), source()).expect("valid report");
        assert!(same_gates(&summary.gates, &report.gates));
        let counts = &summary.rule_counts;
        assert_eq!(
            counts.error
                + counts.failed
                + counts.migration_required
                + counts.not_applicable
                + counts.passed
                + counts.unverified,
            report.rules.len()
        );
        for (check, recorded) in summary.checks.iter().zip(&report.checks) {
            assert_eq!(check.outcome, recorded.outcome);
            assert_eq!(check.blocking, recorded.blocking);
            assert_eq!(check.gates, recorded.gates);
        }
        assert_eq!(summary.findings.len(), if outcome.satisfies_required_rule() { 1 } else { 2 });
        assert!(summary.findings.iter().any(|f| f.outcome == Outcome::Unverified));
    }
}

#[test]
fn truncation_is_explicit_unicode_safe_and_full_diagnostics_are_recoverable() {
    let mut report = report();
    let diagnostic = "界".repeat(600);
    report.rules[0].outcome = Outcome::Error;
    report.rules[0].diagnostic = Some(diagnostic.clone());
    reaggregate(&mut report, &catalog());
    let summary = project_report(&report, &catalog(), source()).expect("valid report");
    let finding = &summary.findings[0];
    let excerpt = finding.diagnostic.as_ref().expect("missing diagnostic");
    assert!(excerpt.truncated);
    assert_eq!(excerpt.text.chars().count(), EXCERPT_CHARS);
    assert_eq!(finding.source_pointer, "/rules/0");
    assert_eq!(report.rules[0].diagnostic.as_deref(), Some(diagnostic.as_str()));
    assert!(!Excerpt::new(&"a".repeat(EXCERPT_CHARS)).truncated);
    assert!(summary.stage.is_none());
}

#[test]
fn malformed_or_inconsistent_saved_reports_are_rejected() {
    let mut variants = vec![];
    let mut bad = report();
    bad.schema = 99;
    variants.push(bad);
    let mut bad = report();
    bad.catalog_version += 1;
    variants.push(bad);
    let mut bad = report();
    bad.rules.pop();
    variants.push(bad);
    let mut bad = report();
    bad.rules.swap(0, 1);
    variants.push(bad);
    let mut bad = report();
    bad.rules[0].outcome = Outcome::Failed;
    variants.push(bad);
    let mut bad = report();
    bad.gates.clear();
    variants.push(bad);
    for bad in variants {
        assert!(project_report(&bad, &catalog(), source()).is_err());
    }
}

#[test]
fn each_rejection_names_its_reason() {
    let mut bad = report();
    bad.schema = 2;
    assert_eq!(validate_report(&bad, &catalog()), Err(ReportError::UnsupportedVersion));
    let mut bad = report();
    bad.rules[2].catalog_version = 2;
    assert_eq!(validate_report(&bad, &catalog()), Err(ReportError::CatalogMismatch));
    let mut bad = report();
    bad.checks = vec![
        check("shared", CheckKind::Suite, true, Outcome::Passed),
        check("shared", CheckKind::Suite, false, Outcome::Passed),
    ];
    reaggregate(&mut bad, &catalog());
    assert_eq!(validate_report(&bad, &catalog()), Err(ReportError::DuplicateChecks));
    let mut bad = report();
    bad.rules[1].outcome = Outcome::Failed;
    assert_eq!(validate_report(&bad, &catalog()), Err(ReportError::InconsistentGates));
    assert_eq!(validate_report(&report(), &catalog()), Ok(()));
    assert_eq!(
        ReportError::DuplicateChecks.message(),
        "report contains ambiguous duplicate check IDs"
    );
    assert_eq!(
        ReportError::UnsupportedVersion.message(),
        "unsupported report schema or catalog version; use the originating CLI"
    );
}

#[test]
fn a_suite_and_an_extension_may_share_an_identity() {
    let mut report = report();
    report.checks = vec![
        check("shared", CheckKind::Suite, true, Outcome::Passed),
        check("shared", CheckKind::Extension, false, Outcome::Passed),
    ];
    reaggregate(&mut report, &catalog());
    assert_eq!(validate_report(&report, &catalog()), Ok(()));
}

#[test]
fn counts_findings_and_output_follow_the_report() {
    let mut report = report();
    report.rules[0].outcome = Outcome::Failed;
    report.rules[0].diagnostic = Some("broken".into());
    report.rules[2].outcome = Outcome::NotApplicable;
    report.checks = vec![
        check("green", CheckKind::Suite, true, Outcome::Passed),
        check("red", CheckKind::Suite, true, Outcome::Failed),
    ];
    reaggregate(&mut report, &catalog());
    let summary = project_report(&report, &catalog(), source()).expect("valid report");
    assert_eq!(summary.schema, 1);
    assert_eq!(summary.kind, "check_summary");
    assert_eq!(summary.subject, "fixture");
    assert_eq!(summary.evaluated_at, 42);
    assert_eq!(
        summary.freshness,
        "saved_evaluation_only; not revalidated against current project or remote state"
    );
    assert_eq!(summary.full_report.path, "full.json");
    assert_eq!(summary.rule_counts.failed, 1);
    assert_eq!(summary.rule_counts.passed, 1);
    assert_eq!(summary.rule_counts.not_applicable, 1);
    assert_eq!(summary.rule_counts.error, 0);
    assert_eq!(summary.findings.len(), 1);
    assert_eq!(summary.findings[0].rule_id, "OPDEV-AUTH-001");
    assert_eq!(summary.findings[0].diagnostic.as_ref().map(|e| e.text.as_str()), Some("broken"));
    assert!(summary.checks[0].stdout.is_none());
    assert_eq!(summary.checks[1].stdout.as_ref().map(|e| e.text.as_str()), Some("details"));
    assert_eq!(summary.checks[1].source_pointer, "/checks/1");
    assert_eq!(summary.checks[1].duration_ms, Some(7));
    assert!(!all_gates_passed(&summary.gates));
    assert!(all_gates_passed(&self::report().gates));
}

#[test]
fn reaggregation_blocks_only_the_gates_a_rule_feeds() {
    let mut report = report();
    report.rules[1].outcome = Outcome::Unverified;
    reaggregate(&mut report, &catalog());
    let verdicts: Vec<_> = report.gates.iter().map(|g| (g.gate, g.verdict)).collect();
    assert_eq!(
        verdicts,
        vec![
            (Gate::Development, AggregateVerdict::Passed),
            (Gate::Integration, AggregateVerdict::Blocked),
            (Gate::Delivery, AggregateVerdict::Passed),
            (Gate::Compliance, AggregateVerdict::Passed),
        ]
    );
    assert_eq!(report.gates[1].blocking_rules, vec!["MCD-CI-001".to_string()]);
}

#[test]
fn saved_sources_record_the_digest_of_their_bytes() {
    let source = ReportSource::new("report.json".into(), b"abc");
    assert_eq!(source.path, "report.json");
    assert_eq!(source.sha256, "ba7816bf8f01cfea414140de5dae2223b00361a396177a9cb410ff61f20015ad");
}
