use opdev::experiment::{date_days, ExperimentError};
use opdev::manifest::CiProvider;
use opdev::outcome::Outcome;
use opdev::policy::{ProtectionPolicy, QualificationPolicy, RequiredCheck};
use opdev::remote::capability::{combine, failed, invalidate, passed, refresh, unverified};
use opdev::remote::jobs::validate_required;
use opdev::views::printable;

#[test]
fn control_characters_cannot_hide_human_diagnostics() {
    assert_eq!(
        printable("safe\n\x1b[31m\rhidden"),
        "safe\\n\\u{1b}[31m\\rhidden"
    );
}

#[test]
fn civil_dates_match_epoch_and_leap_boundaries() -> Result<(), ExperimentError> {
    assert_eq!(date_days("1970-01-01")?, 0);
    assert_eq!(date_days("2000-01-01")?, 10_957);
    assert_eq!(date_days("2024-03-01")? - date_days("2024-02-28")?, 2);
    assert_eq!(date_days("2100-03-01")? - date_days("2100-02-28")?, 1);
    assert!(date_days("invalid").is_err());
    Ok(())
}

#[test]
fn policy_rejects_missing_review_ambiguous_names_and_wrong_provider_identity() {
    let base = QualificationPolicy {
        review_reference: "review:45".into(),
        source: "push".into(),
        workflow_id: Some(1),
        required_jobs: vec!["test".into()],
        required_checks: vec![RequiredCheck {
            name: "test".into(),
            producer_id: 7,
        }],
        protection: ProtectionPolicy::GithubBranch { strict: true },
    };
    assert!(base.validate(CiProvider::Github).is_ok());
    assert!(base.validate(CiProvider::Gitlab).is_err());
    assert!(base.validate(CiProvider::Unconfigured).is_err());
    let mut invalid = base.clone();
    invalid.review_reference.clear();
    assert!(invalid.validate(CiProvider::Github).is_err());
    invalid = base.clone();
    invalid.required_checks[0].producer_id = 0;
    assert!(invalid.validate(CiProvider::Github).is_err());
    invalid = base.clone();
    invalid
        .required_checks
        .push(invalid.required_checks[0].clone());
    assert!(invalid.validate(CiProvider::Github).is_err());
    invalid = base.clone();
    invalid.required_jobs.clear();
    assert!(invalid.validate(CiProvider::Github).is_err());
    invalid = base.clone();
    invalid.workflow_id = None;
    assert!(invalid.validate(CiProvider::Github).is_err());
    invalid = base;
    invalid.protection = ProtectionPolicy::GithubRulesets {
        ids: vec![1, 1],
        strict: true,
    };
    assert!(invalid.validate(CiProvider::Github).is_err());
}

#[test]
fn validates_names_before_network() {
    for names in [
        vec![String::new()],
        vec!["x\n".into()],
        vec!["x".into(), "x".into()],
        vec!["x".into(); 101],
    ] {
        assert!(validate_required(&names).is_err());
    }
    assert!(validate_required(&[]).is_ok());
    assert!(validate_required(&["matrix (Linux, x86_64)".into()]).is_ok());
}

#[test]
fn missing_observations_never_erase_known_failures() {
    let mut known = failed("known failure");
    invalidate(&mut known, "unavailable");
    assert_eq!(known.outcome, Outcome::Failed);
    assert_eq!(
        combine(&[Outcome::Passed, Outcome::Unverified]),
        Outcome::Unverified
    );
    assert_eq!(
        combine(&[Outcome::Failed, Outcome::Unverified]),
        Outcome::Failed
    );
    refresh(&mut known, unverified("permission lost"));
    assert_eq!(known.outcome, Outcome::Failed);
    let mut good = passed("policy", "matches", None);
    refresh(&mut good, unverified("permission lost"));
    assert_eq!(good.outcome, Outcome::Unverified);
    refresh(&mut good, failed("drift"));
    assert_eq!(good.outcome, Outcome::Failed);
}
