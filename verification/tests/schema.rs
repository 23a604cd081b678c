use opdev::adoption::{adoption_record_from, AdoptionCatalog, AdoptionError, AdoptionRecord, Practice, Requirement};
use opdev::experiment::{validate_experiment_document, Configuration, ExperimentError, ExperimentRecord};
use opdev::manifest::{
    CiConfig, CiProvider, Delivery, DeliveryStatus, Operations, Project, ProjectManifest, TestStage, TestSuite, Testing,
};
use opdev::schema::{check_schema, check_schema_with_formats};

const RECORD_SCHEMA: &str = r#"{"type":"object","required":["schema","catalog_version","practices"],
"properties":{"schema":{"type":"integer"},"catalog_version":{"type":"integer"},"practices":{"type":"object"}}}"#;

#[test]
fn every_violation_is_reported_with_its_path() {
    assert_eq!(check_schema(RECORD_SCHEMA, r#"{"schema":2,"catalog_version":1,"practices":{}}"#), Ok(()));
    match check_schema(RECORD_SCHEMA, r#"{"schema":"two","catalog_version":1}"#) {
        Err(Ok(message)) => {
            assert!(message.contains("/schema: "), "{message}");
            assert!(message.contains("\"practices\" is a required property"), "{message}");
            assert!(message.contains("; "), "{message}");
        }
        other => panic!("{other:?}"),
    }
    assert!(matches!(check_schema("{not json", "{}"), Err(Err(_))));
    assert!(matches!(check_schema(r#"{"type": 12}"#, "{}"), Err(Err(_))));
}

#[test]
fn formats_are_validated_where_asked() {
    let schema = r#"{"type":"string","format":"date"}"#;
    assert!(matches!(check_schema_with_formats(schema, r#""2024-13-45""#), Err(Ok(_))));
    assert_eq!(check_schema_with_formats(schema, r#""2024-02-29""#), Ok(()));
}

fn catalog() -> AdoptionCatalog {
    AdoptionCatalog {
        version: 1,
        practices: vec![Practice { id: "testing".into(), title: "Testing".into(), requirement: Requirement::Required, automated: false }],
    }
}

#[test]
fn a_record_must_meet_its_schema_and_the_catalog() {
    let catalog = catalog();
    let document = r#"{"schema":2,"catalog_version":1,"practices":{"testing":{"state":"pending"}}}"#;
    let record = AdoptionRecord::pending(&catalog);
    assert!(adoption_record_from(document, Some(RECORD_SCHEMA), record, &catalog).is_ok());
    let record = AdoptionRecord::pending(&catalog);
    match adoption_record_from(r#"{"schema":2}"#, Some(RECORD_SCHEMA), record, &catalog) {
        Err(AdoptionError::Invalid(m)) => assert!(m.contains("\"catalog_version\" is a required property"), "{m}"),
        Ok(_) => panic!("schema violation accepted"),
    }
    let mut wrong = AdoptionRecord::pending(&catalog);
    wrong.catalog_version = 2;
    match adoption_record_from(document, None, wrong, &catalog) {
        Err(AdoptionError::Invalid(m)) => assert_eq!(m, "unsupported catalog 2; supports 1 (explicit migration required)"),
        Ok(_) => panic!("wrong catalog accepted"),
    }
}

fn manifest() -> ProjectManifest {
    ProjectManifest {
        project: Project { trunk: "main".into(), ci: CiConfig { provider: CiProvider::Github, remote: None, qualification: None } },
        authorities: vec![],
        risks: vec![],
        testing: Testing {
            suites: vec![TestSuite { id: "all".into(), command: "test".into(), stages: vec![TestStage::PreMerge, TestStage::PostMerge] }],
            coverage_mode: None,
        },
        delivery: Delivery { status: DeliveryStatus::MigrationRequired, mode: "publish".into(), artifact_locator: "registry".into() },
        operations: Operations { health_evidence: None, observability_authority: None },
        extensions: vec![],
    }
}

#[test]
fn experiment_documents_meet_their_schema_before_anything_else() {
    let record = ExperimentRecord {
        id: "exp".into(),
        review_by: "2999-01-01".into(),
        configurations: ["stable", "experimental"]
            .iter()
            .map(|e| Configuration { id: e.to_string(), exposure: e.to_string(), suites: vec!["all".into()] })
            .collect(),
    };
    let schema = r#"{"type":"object","required":["id"],"properties":{"review_by":{"type":"string","format":"date"}}}"#;
    assert_eq!(
        validate_experiment_document(r#"{"id":"exp","review_by":"2999-01-01"}"#, Some(schema), &record, &manifest(), 0).unwrap(),
        "exp"
    );
    assert!(matches!(
        validate_experiment_document(r#"{"id":"exp","review_by":"2999-99-01"}"#, Some(schema), &record, &manifest(), 0),
        Err(ExperimentError::Invalid(_))
    ));
    assert!(matches!(
        validate_experiment_document("{}", Some("[broken"), &record, &manifest(), 0),
        Err(ExperimentError::Schema(_))
    ));
}
