use opdev::junit::{
    inspect_junit, inspect_nodes, JunitError, XmlAttribute, XmlNode, MAX_REPORT_BYTES, MAX_XML_NODES,
};
use opdev::outcome::Outcome;

fn inspect(xml: &str) -> Result<opdev::junit::TestReportInspection, JunitError> {
    inspect_junit(xml.as_bytes())
}

#[test]
fn reports_actual_cases_and_never_qualifies() {
    let report = inspect("<testsuite tests='1'><testcase name='ok'/></testsuite>").unwrap();
    assert_eq!(report.outcome, Outcome::Passed);
    assert_eq!(report.cases, 1);
    assert_eq!(report.qualification, Outcome::Unverified);
    assert_eq!(report.input_sha256.len(), 64);
    assert_eq!(report.schema, 1);
}

#[test]
fn detects_failed_error_skipped_and_retry_cases() {
    let report = inspect(
        "<testsuites><testsuite tests='4'>
            <testcase name='a'><failure>private content</failure></testcase>
            <testcase name='b'><error/></testcase><testcase name='c'><skipped/></testcase>
            <testcase name='d'><flakyFailure/></testcase></testsuite></testsuites>",
    )
    .unwrap();
    assert_eq!(report.outcome, Outcome::Failed);
    assert_eq!(
        (report.cases, report.failures, report.errors, report.skipped, report.retry_signals),
        (4, 1, 1, 1, 1)
    );
    assert!(!format!("{report:?}").contains("private content"));
}

#[test]
fn ambiguous_and_empty_reports_cannot_pass() {
    for xml in [
        "<testsuite tests='20'/>",
        "<testsuites/>",
        "<testsuite><testcase name='a'><skipped/></testcase></testsuite>",
        "<testsuite><testcase name='a'><rerunError/></testcase></testsuite>",
        "<testsuite><testcase name='a'/><testcase name='a'/></testsuite>",
        "<testsuite><testcase/></testsuite>",
        "<testsuite><testcase name='a' status='notrun'/></testsuite>",
        "<testsuite status='failed'><testcase name='a'/></testsuite>",
        "<testsuite tests='2'><testcase name='a'/></testsuite>",
        "<testsuite><testcase name='a'><unknown/></testcase></testsuite>",
        "<testsuite><wrapper><testcase name='a'/></wrapper></testsuite>",
        "<testsuite><failure/><testcase name='a'/></testsuite>",
    ] {
        assert_eq!(inspect(xml).unwrap().outcome, Outcome::Unverified, "{xml}");
    }
}

#[test]
fn malformed_oversized_and_entity_inputs_are_errors() {
    for xml in [
        "",
        "<testsuite>",
        "<other/>",
        "<!DOCTYPE testsuite [<!ENTITY private 'value'>]><testsuite>&private;</testsuite>",
    ] {
        assert!(inspect(xml).is_err());
    }
    let oversized = vec![b' '; MAX_REPORT_BYTES + 1];
    assert!(inspect_junit(&oversized).is_err());
    let many_nodes = format!("<testsuite>{}</testsuite>", "<testcase/>".repeat(MAX_XML_NODES as usize));
    assert!(inspect(&many_nodes).is_err());
    let deep = format!("{}{}", "<testsuite>".repeat(65), "</testsuite>".repeat(65));
    assert!(inspect(&deep).is_err());
    assert!(inspect_junit(&[0xff]).is_err());
}

#[test]
fn each_rejection_has_its_own_error() {
    assert_eq!(inspect_junit(&vec![b' '; MAX_REPORT_BYTES + 1]).unwrap_err(), JunitError::Oversized);
    assert_eq!(inspect_junit(&[0xff]).unwrap_err(), JunitError::NotUtf8);
    assert_eq!(inspect("<testsuite>").unwrap_err(), JunitError::InvalidXml);
    assert_eq!(inspect("<other/>").unwrap_err(), JunitError::UnsupportedRoot);
    assert_eq!(inspect("<testsuite xmlns='urn:x'/>").unwrap_err(), JunitError::UnsupportedRoot);
    let deep = format!("{}{}", "<testsuite>".repeat(65), "</testsuite>".repeat(65));
    assert_eq!(inspect(&deep).unwrap_err(), JunitError::TooDeep);
    let limit = format!("{}{}", "<testsuite>".repeat(64), "</testsuite>".repeat(64));
    assert!(inspect(&limit).is_ok());
    assert_eq!(JunitError::TooDeep.message(), "JUnit nesting exceeds the 64-level limit");
}

#[test]
fn digest_is_the_sha256_of_the_exact_bytes() {
    let report = inspect("<testsuite/>").unwrap();
    assert_eq!(report.input_sha256, "55a2c4dabbdd641e56e0ce28262e1d43b8fff7534ced8580f39ba573eca56f2c");
    let other = inspect("<testsuite />").unwrap();
    assert_ne!(report.input_sha256, other.input_sha256);
}

#[test]
fn diagnostics_are_fixed_sorted_and_end_with_the_scope_note() {
    let report = inspect("<testsuite tests='2' status='x'><testcase name='a'><skipped/></testcase></testsuite>").unwrap();
    assert_eq!(report.outcome, Outcome::Unverified);
    assert_eq!(
        report.diagnostics,
        vec![
            "Declared summary counts differ from observed case elements.".to_string(),
            "Producer-specific suite attributes need review.".to_string(),
            "Skipped cases require an applicability or quarantine review.".to_string(),
            "Report inspection only: execution, revision, freshness and complete retry history remain unverified. No gate or evidence ledger was updated.".to_string(),
        ]
    );
    let clean = inspect("<testsuite><testcase name='a'/></testsuite>").unwrap();
    assert_eq!(clean.outcome, Outcome::Passed);
    assert_eq!(clean.diagnostics.len(), 1);
}

#[test]
fn declared_counts_follow_usize_parsing() {
    for (xml, outcome) in [
        ("<testsuite tests='+1'><testcase name='a'/></testsuite>", Outcome::Passed),
        ("<testsuite tests='01'><testcase name='a'/></testsuite>", Outcome::Passed),
        ("<testsuite tests=' 1'><testcase name='a'/></testsuite>", Outcome::Unverified),
        ("<testsuite tests='-1'><testcase name='a'/></testsuite>", Outcome::Unverified),
        ("<testsuite tests='+'><testcase name='a'/></testsuite>", Outcome::Unverified),
        ("<testsuite tests='99999999999999999999999'><testcase name='a'/></testsuite>", Outcome::Unverified),
        ("<testsuite failures='0' errors='0' skipped='0' disabled='0'><testcase name='a'/></testsuite>", Outcome::Passed),
        ("<testsuite disabled='1'><testcase name='a'/></testsuite>", Outcome::Unverified),
    ] {
        assert_eq!(inspect(xml).unwrap().outcome, outcome, "{xml}");
    }
}

#[test]
fn an_error_outweighs_a_failure_in_the_same_case() {
    let report = inspect("<testsuite><testcase name='a'><failure/><error/></testcase></testsuite>").unwrap();
    assert_eq!((report.failures, report.errors), (0, 1));
    assert_eq!(report.outcome, Outcome::Failed);
    assert!(report.diagnostics.contains(&"A case contains conflicting result elements.".to_string()));
}

fn element(id: usize, parent: usize, name: &str, attributes: &[(&str, &str)]) -> XmlNode {
    XmlNode {
        id,
        parent: Some(parent),
        element: true,
        name: name.to_string(),
        namespaced: false,
        attributes: attributes
            .iter()
            .map(|(n, v)| XmlAttribute { name: n.to_string(), value: v.to_string() })
            .collect(),
    }
}

fn document() -> XmlNode {
    XmlNode { id: 0, parent: None, element: false, name: String::new(), namespaced: false, attributes: vec![] }
}

#[test]
fn node_lists_are_inspected_directly() {
    let nodes = vec![
        document(),
        element(1, 0, "testsuite", &[("name", "s"), ("tests", "2")]),
        element(2, 1, "testcase", &[("name", "a")]),
        element(3, 1, "testcase", &[("name", "b")]),
        element(4, 3, "failure", &[]),
    ];
    let report = inspect_nodes(&nodes, "digest".to_string()).unwrap();
    assert_eq!((report.cases, report.failures), (2, 1));
    assert_eq!(report.outcome, Outcome::Failed);
    assert_eq!(report.input_sha256, "digest");
    let broken = vec![document(), element(1, 5, "testsuite", &[])];
    assert_eq!(inspect_nodes(&broken, String::new()).unwrap_err(), JunitError::InvalidXml);
    let rootless = vec![document()];
    assert_eq!(inspect_nodes(&rootless, String::new()).unwrap_err(), JunitError::InvalidXml);
}
