use opdev::inspection::{
    ci_observations, find_runtime_pin, no_plugin, plugin_compatibility, runtime_pin_observation, CiFile, CiSource, PluginContract,
};
use opdev::json::Json;
use opdev::outcome::Outcome;

fn contract(name: &str, requirement: &str) -> PluginContract {
    PluginContract {
        schema: 1,
        plugin_name: name.into(),
        plugin_version: "0.4.0".into(),
        requires_cli: requirement.into(),
    }
}

#[test]
fn runtime_pins_must_be_unambiguous_versions() {
    assert_eq!(find_runtime_pin("name opdev\nversion 1.2.3\n").as_deref(), Some("1.2.3"));
    assert_eq!(find_runtime_pin("version  1.2.3\r\nchecksum abc\r\n").as_deref(), Some("1.2.3"));
    assert_eq!(find_runtime_pin("version 1.2.3\nversion 1.2.4\n"), None);
    assert_eq!(find_runtime_pin("version 1.2.3 extra\n"), None);
    assert_eq!(find_runtime_pin("version v1.2.3\n"), None);
    assert_eq!(find_runtime_pin("version\n"), None);
    assert_eq!(find_runtime_pin(""), None);
    assert_eq!(find_runtime_pin("  version\t2.0.0").as_deref(), Some("2.0.0"));
}

#[test]
fn compatible_different_pin_and_incompatible_plugin_are_distinct() {
    let compatible = plugin_compatibility(&contract("opdev", ">=0.1.0, <1.0.0"), "0.1.0").expect("parses");
    assert_eq!(compatible.component, "plugin");
    assert_eq!(compatible.outcome, Outcome::Passed);
    assert_eq!(
        compatible.detail,
        "Plugin 0.4.0 requires CLI >=0.1.0, <1.0.0; selected CLI 0.1.0. Package data inspected, installation/authenticity not established."
    );
    let other = plugin_compatibility(&contract("other", ">=0.1.0"), "0.1.0").expect("parses");
    assert_eq!(other.outcome, Outcome::Failed);
    let newer = plugin_compatibility(&contract("opdev", ">=0.2.0"), "0.1.0").expect("parses");
    assert_eq!(newer.outcome, Outcome::Failed);
    assert!(plugin_compatibility(&contract("opdev", "not a requirement"), "0.1.0").is_none());
    assert!(plugin_compatibility(&contract("opdev", ">=0.1.0"), "0.1").is_none());

    let pinned = runtime_pin_observation(&contract("opdev", ">=0.1.0"), "0.1.0", "version 0.3.0\n").expect("parses");
    assert_eq!(pinned.component, "runtime_pin");
    assert_eq!(pinned.outcome, Outcome::Unverified);
    assert_eq!(
        pinned.detail,
        "Packaged pin 0.3.0; selected CLI 0.1.0. A different compatible pin is allowed. Use read-only runtime lookup to verify installation/selection; this command never executes package scripts."
    );
    let excluded = runtime_pin_observation(&contract("opdev", "<0.2.0"), "0.1.0", "version 0.3.0\n").expect("parses");
    assert_eq!(excluded.outcome, Outcome::Failed);
    let unpinned = runtime_pin_observation(&contract("opdev", ">=0.1.0"), "0.1.0", "").expect("parses");
    assert_eq!(unpinned.outcome, Outcome::Unverified);
    assert_eq!(unpinned.detail, "No unambiguous runtime version pin; inspect package/setup before installing.");
}

#[test]
fn without_a_plugin_directory_nothing_is_inspected() {
    let o = no_plugin();
    assert_eq!(o.component, "plugin");
    assert_eq!(o.outcome, Outcome::Unverified);
    assert!(o.source.is_none());
}

fn text(s: &str) -> Json {
    Json::Text(s.into())
}

fn object(members: Vec<(&str, Json)>) -> Json {
    Json::Object(members.into_iter().map(|(k, v)| (k.to_string(), v)).collect())
}

#[test]
fn ci_pins_are_observations_and_malformed_inventory_is_an_error() {
    let workflow = object(vec![
        ("env", object(vec![("OPDEV_VERSION", text("1.2.3"))])),
        (
            "jobs",
            Json::Array(vec![
                object(vec![("OPDEV_VERSION", text("${{ vars.PIN }}"))]),
                object(vec![("OPDEV_VERSION", object(vec![("OPDEV_VERSION", text("9.9.9"))]))]),
            ]),
        ),
    ]);
    let files = vec![
        CiFile { key: ".gitlab-ci.yml".into(), source: CiSource::Invalid("mapping values are not allowed".into()) },
        CiFile { key: ".github/workflows/ci.yml".into(), source: CiSource::Parsed(workflow) },
    ];
    let (observations, complete) = ci_observations(files);
    assert!(complete);
    assert_eq!(observations.len(), 3);
    assert_eq!(observations[0].source.as_deref(), Some(".github/workflows/ci.yml"));
    assert_eq!(observations[0].outcome, Outcome::Unverified);
    assert_eq!(
        observations[0].detail,
        ".github/workflows/ci.yml: OPDEV_VERSION declarations [String(\"1.2.3\"), String(\"[dynamic/non-version declaration]\"), String(\"[dynamic/non-version declaration]\")]. Preserved. Declarations do not prove the effective runtime; review scripts, includes, variables and download/signature configuration together."
    );
    assert_eq!(observations[1].outcome, Outcome::Error);
    assert_eq!(observations[1].detail, ".gitlab-ci.yml: mapping values are not allowed; left untouched");
    assert_eq!(observations[2].component, "ci_qualification");
    assert_eq!(observations[2].outcome, Outcome::Unverified);
}

#[test]
fn unreadable_ci_files_stop_the_inventory() {
    let files = vec![
        CiFile { key: ".gitlab-ci.yml".into(), source: CiSource::Parsed(object(vec![])) },
        CiFile { key: ".github/workflows/a.yml".into(), source: CiSource::Unreadable },
    ];
    let (observations, complete) = ci_observations(files);
    assert!(!complete);
    assert!(observations.is_empty());
    let (observations, complete) = ci_observations(vec![]);
    assert!(complete);
    assert_eq!(observations.len(), 1);
}
