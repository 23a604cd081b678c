use opdev::experiment::date_days;
use opdev::experiment::{validate_experiment, Configuration, ExperimentError, ExperimentRecord};
use opdev::manifest::{
    CiConfig, CiProvider, Delivery, DeliveryStatus, Operations, Project, ProjectManifest, TestStage, TestSuite, Testing,
};

fn manifest() -> ProjectManifest {
    ProjectManifest {
        project: Project {
            trunk: "main".into(),
            ci: CiConfig { provider: CiProvider::Github, remote: None, qualification: None },
        },
        authorities: vec![],
        risks: vec![],
        testing: Testing {
            suites: ["stable-tests", "experimental-tests"]
                .into_iter()
                .map(|id| TestSuite {
                    id: id.into(),
                    command: "test".into(),
                    stages: vec![TestStage::PreMerge, TestStage::PostMerge],
                })
                .collect(),
            coverage_mode: None,
        },
        delivery: Delivery {
            status: DeliveryStatus::MigrationRequired,
            mode: "publish".into(),
            artifact_locator: "registry".into(),
        },
        operations: Operations { health_evidence: None, observability_authority: None },
        extensions: vec![],
    }
}

fn configuration(id: &str, exposure: &str, suites: &[&str]) -> Configuration {
    Configuration { id: id.into(), exposure: exposure.into(), suites: suites.iter().map(|s| s.to_string()).collect() }
}

fn record() -> ExperimentRecord {
    ExperimentRecord {
        id: "alternative-engine".into(),
        review_by: "2099-01-01".into(),
        configurations: vec![
            configuration("stable", "stable", &["stable-tests"]),
            configuration("alternative", "experimental", &["experimental-tests"]),
        ],
    }
}

fn message(result: Result<String, ExperimentError>) -> String {
    match result {
        Err(ExperimentError::Invalid(message)) => message,
        Err(ExperimentError::Schema(message)) => panic!("unexpected schema failure: {message}"),
        Ok(id) => panic!("expected rejection, got {id}"),
    }
}

#[test]
fn semantic_validation_requires_supported_configurations_and_integration_suites() {
    let mut manifest = manifest();
    let mut value = record();
    value.configurations[0].suites = vec!["missing".into()];
    assert!(message(validate_experiment(&value, &manifest, 0)).contains("unknown test suite"));
    let mut value = record();
    value.configurations[1].id = "stable".into();
    assert!(message(validate_experiment(&value, &manifest, 0)).contains("duplicate configuration"));
    let mut value = record();
    value.configurations[1].exposure = "stable".into();
    assert!(message(validate_experiment(&value, &manifest, 0)).contains("both stable and experimental"));
    let mut value = record();
    value.configurations[0].exposure = "experimental".into();
    assert!(message(validate_experiment(&value, &manifest, 0)).contains("both stable and experimental"));
    manifest.testing.suites[0].stages = vec![TestStage::Local, TestStage::PreMerge];
    assert!(validate_experiment(&record(), &manifest, 0).is_err());
    manifest.testing.suites[0].stages = vec![TestStage::PostMerge];
    assert!(validate_experiment(&record(), &manifest, 0).is_err());
}

#[test]
fn review_day_is_inclusive_and_shared_suites_are_supported() {
    let manifest = manifest();
    let mut value = record();
    value.review_by = "2000-01-01".into();
    value.configurations[1].suites = vec!["stable-tests".into()];
    assert_eq!(validate_experiment(&value, &manifest, 10_957).expect("valid"), "alternative-engine");
    assert!(message(validate_experiment(&value, &manifest, 10_958)).contains("review overdue"));
}

#[test]
fn large_dates_count_days_until_the_count_leaves_i64() {
    // 5 * 10^12 whole 400-year cycles of 146097 days each.
    assert_eq!(date_days("2000000000000000-01-01").unwrap() - date_days("0-01-01").unwrap(), 730_485_000_000_000_000);
    assert_eq!(date_days("0-01-01").unwrap(), -719_528);
    assert!(date_days("+2024-01-01").is_ok());
    assert!(matches!(date_days("9223372036854775807-01-01"), Err(ExperimentError::Invalid(_))));
    assert!(matches!(date_days("9223372036854775808-01-01"), Err(ExperimentError::Invalid(_))));
    assert!(matches!(date_days("2024-99999999999999999999-01"), Err(ExperimentError::Invalid(_))));
    assert!(matches!(date_days("2024-01"), Err(ExperimentError::Invalid(_))));
}
