use opdev::execution::{
    clean_revision, confirm_source, plan_test_execution, revision_after, ExecutionError, SourceProblem, SourceState,
};
use opdev::manifest::{
    CiConfig, CiProvider, Delivery, DeliveryStatus, Operations, Project, ProjectManifest, TestStage, TestSuite, Testing,
};

const HEAD: &str = "0123456789abcdef0123456789abcdef01234567";

fn manifest() -> ProjectManifest {
    ProjectManifest {
        project: Project {
            trunk: "main".into(),
            ci: CiConfig { provider: CiProvider::Github, remote: None, qualification: None },
        },
        authorities: vec![],
        risks: vec![],
        testing: Testing {
            suites: vec![TestSuite { id: "unit".into(), command: "test".into(), stages: vec![TestStage::Local] }],
            coverage_mode: None,
        },
        delivery: Delivery {
            status: DeliveryStatus::MigrationRequired,
            mode: "publish".into(),
            artifact_locator: "registry".into(),
        },
        operations: Operations { health_evidence: None, observability_authority: None },
        extensions: vec![],
    }
}

fn clean() -> SourceState {
    SourceState::Clean(format!("{HEAD}\n"))
}

#[test]
fn dirty_uncommitted_or_unreadable_source_prevents_execution() {
    for (state, problem) in [
        (SourceState::StatusUnavailable, SourceProblem::StatusUnavailable),
        (SourceState::Dirty, SourceProblem::Dirty),
        (SourceState::RevisionUnavailable, SourceProblem::RevisionUnavailable),
        (SourceState::NoCommit, SourceProblem::NoCommit),
        (SourceState::RevisionNotText, SourceProblem::RevisionNotText),
        (SourceState::Clean("abc123\n".into()), SourceProblem::InvalidRevision),
    ] {
        assert_eq!(
            plan_test_execution(&manifest(), "unit", &state).err(),
            Some(ExecutionError::UncleanSource(problem))
        );
    }
    assert_eq!(
        ExecutionError::UncleanSource(SourceProblem::Dirty).message(),
        "a clean committed source tree is required before execution: source is dirty or unavailable"
    );
}

#[test]
fn unknown_suites_are_refused_before_execution() {
    let error = plan_test_execution(&manifest(), "missing", &clean()).err();
    assert_eq!(error, Some(ExecutionError::UnknownSuite));
    assert_eq!(
        ExecutionError::UnknownSuite.message(),
        "unknown canonical test suite; no command was executed"
    );
    // The source is judged first.
    assert_eq!(
        plan_test_execution(&manifest(), "missing", &SourceState::Dirty).err(),
        Some(ExecutionError::UncleanSource(SourceProblem::Dirty))
    );
}

#[test]
fn clean_sources_plan_the_suite_command_and_detect_changes() {
    let plan = plan_test_execution(&manifest(), "unit", &clean()).expect("plan");
    assert_eq!(plan.revision, HEAD);
    assert_eq!(plan.suite, "unit");
    assert_eq!(plan.command_key, "test");
    assert_eq!(confirm_source(&plan, &clean()), Ok(()));
    let other = SourceState::Clean("fedcba9876543210fedcba9876543210fedcba98".into());
    assert_eq!(confirm_source(&plan, &other), Err(ExecutionError::SourceChanged));
    assert_eq!(confirm_source(&plan, &SourceState::Dirty), Err(ExecutionError::SourceChanged));
    assert_eq!(revision_after(&clean()).as_deref(), Some(HEAD));
    assert_eq!(revision_after(&SourceState::Dirty), None);
    assert_eq!(clean_revision(&clean()).ok().as_deref(), Some(HEAD));
}
