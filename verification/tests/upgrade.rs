use opdev::upgrade::{input_digest, plan_identity};
use opdev::adoption::{AdoptionCatalog, AdoptionRecord, Practice, Requirement};
use opdev::inspection::{no_plugin, Observation};
use opdev::manifest::{
    CiConfig, CiProvider, Delivery, DeliveryStatus, Operations, Project, ProjectManifest, Testing,
};
use opdev::outcome::Outcome;
use opdev::upgrade::{
    applied_finding, approve_apply, confirm_unchanged, preview_blocked, preview_findings, AdoptionLoad, ProfileCheck,
    UpgradeError,
};

fn manifest() -> ProjectManifest {
    ProjectManifest {
        project: Project {
            trunk: "main".into(),
            ci: CiConfig { provider: CiProvider::Github, remote: None, qualification: None },
        },
        authorities: vec![],
        risks: vec![],
        testing: Testing { suites: vec![], coverage_mode: None },
        delivery: Delivery {
            status: DeliveryStatus::MigrationRequired,
            mode: "publish".into(),
            artifact_locator: "registry".into(),
        },
        operations: Operations { health_evidence: None, observability_authority: None },
        extensions: vec![],
    }
}

fn catalog() -> AdoptionCatalog {
    AdoptionCatalog {
        version: 1,
        practices: vec![Practice {
            id: "testing".into(),
            title: "Testing".into(),
            requirement: Requirement::Required,
            automated: false,
        }],
    }
}

fn qualification() -> Observation {
    Observation {
        component: "ci_qualification".into(),
        source: None,
        outcome: Outcome::Unverified,
        detail: "not qualified".into(),
    }
}

#[test]
fn legacy_upgrade_does_not_start_adoption() {
    let findings = preview_findings(
        1,
        &AdoptionLoad::Absent,
        &manifest(),
        &catalog(),
        &vec![ProfileCheck { name: "opdev-core".into(), version: "1".into(), problem: None }],
        &vec![no_plugin()],
        &vec![qualification()],
    );
    let shown: Vec<(&str, Outcome)> = findings.iter().map(|f| (f.component.as_str(), f.outcome)).collect();
    assert_eq!(
        shown,
        vec![
            ("project_schema", Outcome::Passed),
            ("adoption", Outcome::Unverified),
            ("assurance_profile", Outcome::Passed),
            ("plugin", Outcome::Unverified),
            ("ci_qualification", Outcome::Unverified),
            ("release_discovery", Outcome::Unverified),
        ]
    );
    assert_eq!(findings[0].detail, "Schema 1 is supported; no schema migration is applied.");
    assert_eq!(
        findings[1].detail,
        "Legacy-unassessed project; no adoption record created. Assessment remains a separate explicit choice."
    );
    assert_eq!(findings[2].detail, "opdev-core 1: available, pin unchanged (not a compliance verdict)");
    assert!(!preview_blocked(&findings));
    assert_eq!(approve_apply("plan", "plan", &findings), Ok(()));
    assert_eq!(approve_apply("other", "plan", &findings), Err(UpgradeError::Stale));
}

#[test]
fn open_decisions_need_migration_and_bad_records_block() {
    let pending = AdoptionRecord::pending(&catalog());
    let findings = preview_findings(1, &AdoptionLoad::Loaded(pending), &manifest(), &catalog(), &vec![], &vec![], &vec![]);
    assert_eq!(findings[1].outcome, Outcome::MigrationRequired);
    assert!(findings[1].detail.starts_with("scope: assess all relevant components"));
    assert!(!preview_blocked(&findings));

    let mut future = AdoptionRecord::pending(&catalog());
    future.catalog_version = 2;
    let findings = preview_findings(1, &AdoptionLoad::Loaded(future), &manifest(), &catalog(), &vec![], &vec![], &vec![]);
    assert_eq!(findings[1].outcome, Outcome::Error);
    assert_eq!(
        findings[1].detail,
        "invalid adoption record: unsupported catalog 2; supports 1 (explicit migration required)"
    );
    assert!(preview_blocked(&findings));
    assert_eq!(approve_apply("plan", "plan", &findings), Err(UpgradeError::Blocked));

    let findings = preview_findings(
        1,
        &AdoptionLoad::Failed("adoption file error: denied".into()),
        &manifest(),
        &catalog(),
        &vec![ProfileCheck { name: "custom".into(), version: "9".into(), problem: Some("unknown profile".into()) }],
        &vec![],
        &vec![],
    );
    assert_eq!(findings[1].detail, "adoption file error: denied; no automatic adoption migration exists");
    assert_eq!(findings[2].outcome, Outcome::Error);
    assert_eq!(findings[2].detail, "custom 9: unknown profile");
}

#[test]
fn incompatible_plugin_blocks_apply() {
    let plugin = Observation { component: "plugin".into(), source: None, outcome: Outcome::Failed, detail: "old".into() };
    let findings = preview_findings(1, &AdoptionLoad::Absent, &manifest(), &catalog(), &vec![], &vec![plugin], &vec![]);
    assert!(preview_blocked(&findings));
    assert_eq!(approve_apply("plan", "plan", &findings), Err(UpgradeError::Blocked));
    assert_eq!(
        UpgradeError::Blocked.message(),
        "upgrade has compatibility or assessment errors; nothing written. Resolve the preview findings first"
    );
}

#[test]
fn changed_inputs_reject_apply() {
    assert_eq!(confirm_unchanged("abc", "abc"), Ok(()));
    assert_eq!(confirm_unchanged("abc", "abd"), Err(UpgradeError::InputsChanged));
    assert_eq!(UpgradeError::InputsChanged.message(), "upgrade inputs changed during review; nothing written. Preview again");
    let applied = applied_finding();
    assert_eq!(applied.component, "guidance");
    assert_eq!(applied.outcome, Outcome::Passed);
}

fn practices() -> AdoptionCatalog {
    AdoptionCatalog {
        version: 1,
        practices: vec![
            Practice { id: "formatting".into(), title: "Formatting".into(), requirement: Requirement::Optional, automated: false },
            Practice { id: "integration".into(), title: "Integration".into(), requirement: Requirement::Required, automated: false },
        ],
    }
}

#[test]
fn inventory_and_decisions_fail_closed() {
    let catalog = practices();
    let record = AdoptionRecord::pending(&catalog);
    let mut missing = AdoptionRecord::pending(&catalog);
    missing.practices.retain(|(id, _)| id != "formatting");
    assert!(missing.blockers(&manifest(), &catalog).is_err());
    let mut future = AdoptionRecord::pending(&catalog);
    future.catalog_version = 999;
    assert!(future.blockers(&manifest(), &catalog).is_err());
    let mut invented = AdoptionRecord::pending(&catalog);
    invented.practices.push(("invented".into(), AdoptionRecord::pending(&catalog).practices.remove(0).1));
    assert!(invented.blockers(&manifest(), &catalog).is_err());

    let mut record = record;
    record.scope = "Whole fixture".into();
    for (_, decision) in record.practices.iter_mut() {
        decision.state = opdev::adoption::AdoptionState::Ignored;
        decision.owner = "fixture owner".into();
        decision.reason = "Explicit test disposition".into();
        decision.references = vec!["fixture-review.md".into()];
    }
    let blockers = record.blockers(&manifest(), &catalog).ok().expect("valid inventory");
    assert!(blockers.iter().any(|b| b.starts_with("integration:")));
    assert!(!blockers.iter().any(|b| b.starts_with("formatting:")));
    for (id, decision) in record.practices.iter_mut() {
        if id == "formatting" {
            decision.owner.clear();
        }
    }
    assert!(record.blockers(&manifest(), &catalog).ok().expect("valid").iter().any(|b| b.starts_with("formatting:")));
    for (id, decision) in record.practices.iter_mut() {
        if id == "integration" {
            decision.state = opdev::adoption::AdoptionState::NotApplicable;
        }
    }
    assert!(record
        .blockers(&manifest(), &catalog)
        .ok()
        .expect("valid")
        .iter()
        .any(|b| b.contains("required practice cannot")));
}

#[test]
fn plan_identities_and_input_digests_are_sha256_of_the_bytes() {
    assert_eq!(input_digest(None), None);
    assert_eq!(
        input_digest(Some(b"abc")).as_deref(),
        Some("ba7816bf8f01cfea414140de5dae2223b00361a396177a9cb410ff61f20015ad")
    );
    assert_eq!(plan_identity(b""), "e3b0c44298fc1c149afbf4c8996fb92427ae41e4649b934ca495991b7852b855");
    assert_ne!(plan_identity(b"{\"findings\":[]}"), plan_identity(b"{\"findings\":[1]}"));
}
