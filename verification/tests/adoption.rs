use opdev::ledger::{matching_change, ChangeAssertions, EvidenceAssertion, LedgerChange};
use opdev::outcome::{Evidence, Outcome};
use opdev::adoption::{
    review_blockers,    adoption_check_next, adoption_status, branch_choices, migrate_record, AdoptionCheckNext, start_record, AdoptionCatalog, AdoptionDecision, AdoptionRecord, AdoptionState, AdoptionStatus,
    Practice, Requirement,
};
use opdev::manifest::{
    CiConfig, CiProvider, Delivery, DeliveryStatus, Operations, Project, ProjectManifest, Testing,
};

fn manifest() -> ProjectManifest {
    ProjectManifest {
        project: Project {
            trunk: "main".into(),
            ci: CiConfig { provider: CiProvider::Github, remote: None, qualification: None },
        },
        authorities: vec![],
        risks: vec![],
        testing: Testing { suites: vec![], coverage_mode: None },
        delivery: Delivery {
            status: DeliveryStatus::MigrationRequired,
            mode: "publish".into(),
            artifact_locator: "registry".into(),
        },
        operations: Operations { health_evidence: None, observability_authority: None },
        extensions: vec![],
    }
}

fn practice(id: &str, requirement: Requirement) -> Practice {
    Practice { id: id.into(), title: id.into(), requirement, automated: false }
}

fn catalog() -> AdoptionCatalog {
    AdoptionCatalog {
        version: 1,
        practices: vec![
            practice("formatting", Requirement::Required),
            practice("linting", Requirement::Optional),
            practice("ownership", Requirement::Conditional),
        ],
    }
}

#[test]
fn fresh_record_blocks_on_scope_then_each_practice_in_catalog_order() {
    let catalog = catalog();
    let record = AdoptionRecord::pending(&catalog);
    let blockers = record.blockers(&manifest(), &catalog).unwrap();
    assert_eq!(
        blockers,
        vec![
            "scope: assess all relevant components".to_string(),
            "formatting: pending decision".to_string(),
            "linting: pending decision".to_string(),
            "ownership: pending decision".to_string(),
        ]
    );
}

#[test]
fn starting_keeps_an_existing_record() {
    let catalog = catalog();
    let mut existing = AdoptionRecord::pending(&catalog);
    existing.scope = "service and worker".into();
    let (kept, existed) = start_record(Some(existing), &catalog);
    assert!(existed);
    assert_eq!(kept.scope, "service and worker");

    let (fresh, existed) = start_record(None, &catalog);
    assert!(!existed);
    assert_eq!(fresh.scope, "");
    assert_eq!(fresh.practices.len(), 3);
    assert!(fresh.practices.iter().all(|(_, d)| d.state == AdoptionState::Pending));
}

#[test]
fn status_names_each_stage_of_an_adoption() {
    let catalog = catalog();
    let none: Option<AdoptionRecord> = None;
    assert_eq!(adoption_status(&none, &[]), AdoptionStatus::LegacyUnassessed);
    assert_eq!(adoption_status(&none, &[]).name(), "legacy_unassessed");

    let first_schema = Some(AdoptionRecord::pending(&catalog));
    assert_eq!(adoption_status(&first_schema, &["x".to_string()]), AdoptionStatus::MigrationRequired);
    assert_eq!(adoption_status(&first_schema, &[]).name(), "migration_required");

    let mut newer = AdoptionRecord::pending(&catalog);
    newer.schema = 2;
    newer.practices = vec![(
        "formatting".into(),
        AdoptionDecision {
            state: AdoptionState::Implemented,
            owner: "team".into(),
            reason: "enforced".into(),
            references: vec![],
            suites: vec![],
            research: vec![],
        },
    )];
    let newer = Some(newer);
    assert_eq!(adoption_status(&newer, &["scope: x".to_string()]), AdoptionStatus::Pending);
    assert_eq!(adoption_status(&newer, &["scope: x".to_string()]).name(), "pending");
    assert_eq!(adoption_status(&newer, &[]), AdoptionStatus::DecisionsReadyForVerification);
    assert_eq!(adoption_status(&newer, &[]).name(), "decisions_ready_for_verification");
}

fn review(id: &str, kind: &str, location: &str, outcome: Outcome) -> EvidenceAssertion {
    EvidenceAssertion {
        rule_id: id.into(),
        outcome,
        summary: "reviewed".into(),
        evidence: vec![Evidence { kind: kind.into(), summary: "adoption reviewed".into(), location: Some(location.into()) }],
    }
}

fn reviewed_change() -> Option<ChangeAssertions> {
    Some(ChangeAssertions {
        work: "W-1".into(),
        assertions: vec![
            review("OPDEV-WORK-001", "adoption_review", ".opdev/adoption.yaml", Outcome::Passed),
            review("OPDEV-TEST-002", "adoption_review", ".opdev/adoption.yaml", Outcome::Passed),
        ],
    })
}

const NEEDS: &str = ": needs a current fingerprint-bound adoption_review of .opdev/adoption.yaml; check fingerprint separately from evidence kind/location; use adoption prepare-evidence for an unresolved worksheet";

#[test]
fn commands_run_only_when_decisions_are_ready_and_guidance_exists() {
    let fresh: Result<String, String> = Ok("tree".into());
    assert!(matches!(
        adoption_check_next(vec![], &fresh, &reviewed_change(), true, true, "SECOND.md"),
        AdoptionCheckNext::Evaluate
    ));
    match adoption_check_next(vec!["scope: x".to_string()], &fresh, &reviewed_change(), false, false, "SECOND.md") {
        AdoptionCheckNext::Blocked(b) => assert_eq!(
            b,
            vec!["scope: x".to_string(), "agents: missing AGENTS.md".to_string(), "agents: missing SECOND.md".to_string()]
        ),
        AdoptionCheckNext::Evaluate => panic!("blocked check must not evaluate"),
    }
    match adoption_check_next(vec![], &fresh, &reviewed_change(), true, false, "SECOND.md") {
        AdoptionCheckNext::Blocked(b) => assert_eq!(b, vec!["agents: missing SECOND.md".to_string()]),
        AdoptionCheckNext::Evaluate => panic!("missing guidance must block"),
    }
}

#[test]
fn nothing_runs_without_a_fingerprint_bound_adoption_review() {
    let stale: Result<String, String> = Err("unstaged or untracked inputs: ?? notes.txt".into());
    match adoption_check_next(vec![], &stale, &reviewed_change(), true, true, "SECOND.md") {
        AdoptionCheckNext::Blocked(b) => assert_eq!(
            b,
            vec![
                "freshness: unstaged or untracked inputs: ?? notes.txt".to_string(),
                "adoption review: staged fingerprint unavailable; resolve the reported unstaged/untracked inputs first".to_string(),
            ]
        ),
        AdoptionCheckNext::Evaluate => panic!("no fingerprint, no evaluation"),
    }
    assert_eq!(
        review_blockers(Some("tree"), &None),
        vec!["adoption review: no ledger change matches the current staged fingerprint; review this state rather than copying old assertions".to_string()]
    );
    assert!(review_blockers(Some("tree"), &reviewed_change()).is_empty());
    let weak = Some(ChangeAssertions {
        work: "W-1".into(),
        assertions: vec![
            review("OPDEV-WORK-001", "policy", ".opdev/adoption.yaml", Outcome::Passed),
            review("OPDEV-TEST-002", "adoption_review", ".opdev/adoption.yaml", Outcome::Unverified),
        ],
    });
    assert_eq!(
        review_blockers(Some("tree"), &weak),
        vec![format!("OPDEV-WORK-001{NEEDS}"), format!("OPDEV-TEST-002{NEEDS}")]
    );
    let elsewhere = Some(ChangeAssertions {
        work: "W-1".into(),
        assertions: vec![
            review("OPDEV-WORK-001", "adoption_review", "docs/adoption.md", Outcome::Passed),
            review("OPDEV-TEST-002", "adoption_review", ".opdev/adoption.yaml", Outcome::Passed),
        ],
    });
    assert_eq!(review_blockers(Some("tree"), &elsewhere), vec![format!("OPDEV-WORK-001{NEEDS}")]);
}

#[test]
fn the_change_for_the_staged_state_is_the_first_bound_to_its_fingerprint() {
    let change = |f: &str, work: &str| LedgerChange {
        fingerprint: f.into(),
        change: ChangeAssertions { work: work.into(), assertions: vec![] },
    };
    let changes = vec![change("a", "W-1"), change("b", "W-2"), change("b", "W-3")];
    assert_eq!(matching_change(&changes, "b"), Some(1));
    assert_eq!(matching_change(&changes, "c"), None);
}

#[test]
fn plans_offer_keeping_or_renaming_a_non_main_trunk() {
    assert_eq!(branch_choices("main"), vec!["Keep main as the single integration and release source".to_string()]);
    assert_eq!(
        branch_choices("develop"),
        vec![
            "Keep develop as the single integration and release source".to_string(),
            "Rename the trunk to main after reviewing CI, protection and documentation changes".to_string(),
        ]
    );
}

#[test]
fn migration_moves_a_first_schema_record_forward_and_keeps_decisions() {
    let catalog = catalog();
    let first = AdoptionRecord::pending(&catalog);
    let migrated = migrate_record(first);
    assert_eq!(migrated.schema, 2);
    assert_eq!(migrated.practices.len(), 3);
    assert_eq!(adoption_status(&Some(migrated), &["scope: x".to_string()]), AdoptionStatus::Pending);
    let mut current = AdoptionRecord::pending(&catalog);
    current.schema = 3;
    assert_eq!(migrate_record(current).schema, 3);
}

#[test]
fn new_records_hold_one_decision_per_practice_in_key_order() {
    let catalog = AdoptionCatalog {
        version: 1,
        practices: vec![
            practice("zeta", Requirement::Required),
            practice("alpha", Requirement::Optional),
            practice("mid", Requirement::Required),
            practice("alpha", Requirement::Optional),
        ],
    };
    let (record, existed) = start_record(None, &catalog);
    assert!(!existed);
    let keys: Vec<&str> = record.practices.iter().map(|(k, _)| k.as_str()).collect();
    assert_eq!(keys, vec!["alpha", "mid", "zeta"]);
}
