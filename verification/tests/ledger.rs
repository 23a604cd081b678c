use opdev::evaluator::RuleResult;
use opdev::ledger::{apply_evidence, ChangeAssertions, EvidenceAssertion};
use opdev::outcome::{Evidence, Outcome, VerificationSource};

fn result(id: &str, outcome: Outcome) -> RuleResult {
    RuleResult {
        rule_id: id.into(),
        catalog_version: 1,
        outcome,
        subject: "fixture".into(),
        verifier: VerificationSource::Manifest,
        evaluated_at: 5,
        evidence: vec![],
        diagnostic: Some("contract says nothing".into()),
    }
}

fn assertion(id: &str, outcome: Outcome, summary: &str) -> EvidenceAssertion {
    EvidenceAssertion {
        rule_id: id.into(),
        outcome,
        summary: summary.into(),
        evidence: vec![Evidence { kind: "review".into(), summary: "checked".into(), location: Some("docs/x.md".into()) }],
    }
}

#[test]
fn assertions_settle_only_unverified_rules() {
    let mut rules = vec![result("A", Outcome::Unverified), result("B", Outcome::Failed), result("C", Outcome::Unverified)];
    let project = vec![assertion("A", Outcome::Passed, "A holds"), assertion("B", Outcome::Passed, "B holds")];
    apply_evidence(&mut rules, &None, &project);
    assert_eq!(rules[0].outcome, Outcome::Passed);
    assert_eq!(rules[0].verifier, VerificationSource::Evidence);
    assert_eq!(rules[0].diagnostic, None);
    assert_eq!(rules[0].evidence.len(), 2);
    assert_eq!(rules[0].evidence[0].kind, "evidence_ledger");
    assert_eq!(rules[0].evidence[0].summary, "A holds");
    assert_eq!(rules[0].evidence[0].location.as_deref(), Some(".opdev/evidence.yaml"));
    assert_eq!(rules[0].evidence[1].kind, "review");
    // A computed failure is never overridden, and a rule without assertion stays unverified.
    assert_eq!(rules[1].outcome, Outcome::Failed);
    assert_eq!(rules[1].verifier, VerificationSource::Manifest);
    assert_eq!(rules[2].outcome, Outcome::Unverified);
    assert_eq!(rules[2].diagnostic.as_deref(), Some("contract says nothing"));
}

#[test]
fn the_staged_change_comes_before_the_project_and_names_its_work() {
    let mut rules = vec![result("A", Outcome::Unverified), result("B", Outcome::Unverified)];
    let change = Some(ChangeAssertions {
        work: "W-7".into(),
        assertions: vec![assertion("A", Outcome::Failed, "A contradicted"), assertion("A", Outcome::Passed, "later")],
    });
    let project = vec![assertion("A", Outcome::Passed, "A holds"), assertion("B", Outcome::NotApplicable, "no UI")];
    apply_evidence(&mut rules, &change, &project);
    assert_eq!(rules[0].outcome, Outcome::Failed);
    assert_eq!(rules[0].evidence[0].summary, "A contradicted; work: W-7");
    assert_eq!(rules[1].outcome, Outcome::NotApplicable);
    assert_eq!(rules[1].evidence[0].summary, "no UI; work: W-7");
    assert_eq!(rules[1].rule_id, "B");
    assert_eq!(rules[1].evaluated_at, 5);
}
