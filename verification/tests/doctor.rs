use opdev::doctor::{
    inspect, path_observation, AuthorityCheck, CommandCheck, ContractGaps, ContractRead, DirectoryCheck, DoctorInputs,
    DoctorReport, PathProblem, PluginInventory, ProgramCheck, ProjectRead, ValidContract,
};
use opdev::inspection::{no_plugin, CiFile, CiSource, Observation};
use opdev::outcome::{Evidence, Outcome};
use opdev::remote::capability::{RemoteAudit, RemoteCapability};

fn runtime_only(remote: bool, contract: ContractRead) -> DoctorInputs {
    DoctorInputs {
        remote_requested: remote,
        plugin_selected: false,
        executable_recorded: true,
        plugin: PluginInventory { observations: vec![no_plugin()], failed: false },
        project: Some(ProjectRead { contract, ci: Some(vec![]) }),
    }
}

fn find<'a>(report: &'a DoctorReport, id: &str) -> &'a opdev::doctor::DoctorFinding {
    report.findings.iter().find(|f| f.id == id).unwrap_or_else(|| panic!("missing {id}"))
}

#[test]
fn remote_permission_unknown_red_and_green_keep_distinct_exits() {
    let capability = |outcome| RemoteCapability {
        outcome,
        evidence: Vec::new(),
        diagnostic: Some("offline provider observation".into()),
    };
    for (settings, pipeline, exit) in [
        (Outcome::Unverified, Outcome::Unverified, 1),
        (Outcome::Passed, Outcome::Failed, 1),
        (Outcome::Passed, Outcome::Unverified, 0),
        (Outcome::Error, Outcome::Unverified, 2),
    ] {
        let mut report = inspect(runtime_only(false, ContractRead::Absent));
        report.append_remote(&RemoteAudit {
            repository: "fixture/project".into(),
            ci: capability(settings),
            trunk: capability(settings),
            trunk_protection: capability(settings),
            branch_lifecycle: capability(settings),
            trunk_pipeline: capability(pipeline),
        });
        report.finish();
        assert_eq!(report.exit_code, exit);
        assert_eq!(find(&report, "remote.trunk_protection").outcome, settings);
        assert_eq!(find(&report, "remote.trunk_pipeline").outcome, pipeline);
    }
}

#[test]
fn runtime_only_inspection_does_not_start_adoption() {
    let report = inspect(runtime_only(false, ContractRead::Absent));
    assert_eq!(report.exit_code, 0);
    let ids: Vec<&str> = report.findings.iter().map(|f| f.id.as_str()).collect();
    assert_eq!(
        ids,
        vec![
            "runtime.identity",
            "environment.scope",
            "inventory.plugin",
            "project.contract",
            "remote.not_requested",
            "inventory.ci_qualification",
        ]
    );
    let contract = find(&report, "project.contract");
    assert_eq!(contract.outcome, Outcome::NotApplicable);
    assert!(!contract.required);
    assert_eq!(
        contract.next_step,
        "For substantive development, offer OpDev adoption and wait for consent; routine operations need no adoption."
    );
    assert_eq!(
        find(&report, "runtime.identity").next_step,
        "No repair indicated; this observation does not verify behavior or qualify a gate."
    );
    assert!(!find(&report, "inventory.plugin").required);
}

#[test]
fn requested_remote_needs_a_contract() {
    let report = inspect(runtime_only(true, ContractRead::Absent));
    let blocked = find(&report, "remote.blocked");
    assert_eq!(blocked.outcome, Outcome::Unverified);
    assert!(blocked.required);
    assert!(report.findings.iter().all(|f| f.id != "remote.not_requested"));
    assert_eq!(report.exit_code, 1);
}

#[test]
fn invalid_contracts_keep_independent_observations() {
    let report = inspect(runtime_only(false, ContractRead::Invalid));
    assert_eq!(find(&report, "project.contract").outcome, Outcome::Error);
    assert_eq!(find(&report, "project.contract").scope, "inspection");
    assert_eq!(find(&report, "project.dependents").outcome, Outcome::Unverified);
    assert_eq!(find(&report, "environment.scope").outcome, Outcome::Passed);
    assert_eq!(report.exit_code, 2);
    let unreadable_root = inspect(DoctorInputs { project: None, ..runtime_only(false, ContractRead::Absent) });
    assert_eq!(find(&unreadable_root, "project.root").outcome, Outcome::Error);
    assert_eq!(find(&unreadable_root, "project.root").subject, "--root directory");
    assert_eq!(unreadable_root.exit_code, 2);
}

fn valid(commands: Vec<CommandCheck>, authorities: Vec<AuthorityCheck>) -> ContractRead {
    ContractRead::Valid(ValidContract {
        schema: 1,
        commands,
        authorities,
        gaps: ContractGaps {
            ci_unconfigured: false,
            coverage_unconfigured: true,
            delivery_migration_required: false,
            recovery_unconfigured: true,
            no_commands: false,
        },
        remote: None,
    })
}

#[test]
fn missing_executable_directory_and_authority_have_specific_next_actions() {
    let report = inspect(runtime_only(
        false,
        valid(
            vec![
                CommandCheck {
                    name: "check".into(),
                    directory_shown: "/project/missing".into(),
                    directory: DirectoryCheck::Unusable(PathProblem::Missing),
                },
                CommandCheck {
                    name: "test".into(),
                    directory_shown: "/project".into(),
                    directory: DirectoryCheck::Usable(ProgramCheck::Missing),
                },
            ],
            vec![
                AuthorityCheck::Path {
                    name: "work".into(),
                    shown: "/project/docs".into(),
                    check: Err(PathProblem::Missing),
                },
                AuthorityCheck::External { name: "issues".into() },
            ],
        ),
    ));
    let check: Vec<_> = report.findings.iter().filter(|f| f.subject == "commands.check").collect();
    assert_eq!(check.len(), 2);
    assert_eq!(check[0].id, "command.directory");
    assert_eq!(check[0].outcome, Outcome::Failed);
    assert_eq!(check[0].observation, "Declared path does not exist in this environment.");
    assert_eq!(
        check[0].next_step,
        "Correct the declared working directory or access permissions; doctor never creates directories."
    );
    assert_eq!(check[1].outcome, Outcome::Unverified);
    assert_eq!(check[1].next_step, "Resolve command.directory first.");
    let test: Vec<_> = report.findings.iter().filter(|f| f.subject == "commands.test").collect();
    assert_eq!(test.len(), 3);
    assert_eq!(test[0].outcome, Outcome::Passed);
    assert_eq!(
        test[0].observation,
        "/project exists with read access in this environment; content adequacy and execution are not verified."
    );
    assert_eq!(test[1].outcome, Outcome::Failed);
    assert_eq!(test[2].id, "command.execution");
    assert!(!test[2].required);
    let work = find(&report, "authority.path");
    assert_eq!(work.subject, "authorities.work");
    assert_eq!(work.outcome, Outcome::Failed);
    assert_eq!(find(&report, "authority.external").outcome, Outcome::Unverified);
    let gaps: Vec<&str> = report.findings.iter().filter(|f| f.id.starts_with("gap.")).map(|f| f.id.as_str()).collect();
    assert_eq!(gaps, vec!["gap.coverage", "gap.recovery"]);
    assert_eq!(find(&report, "project.contract").observation, "Project schema 1 parsed and validated; no policies selected or changed.");
    assert_eq!(report.exit_code, 1);
}

#[test]
fn path_observations_claim_absence_only_when_known() {
    assert_eq!(path_observation(Err(PathProblem::Unsafe), "x").0, Outcome::Unverified);
    assert_eq!(path_observation(Err(PathProblem::PermissionDenied), "x").0, Outcome::Unverified);
    assert_eq!(path_observation(Err(PathProblem::WrongType), "x").0, Outcome::Failed);
    assert_eq!(path_observation(Err(PathProblem::Failed), "x").0, Outcome::Error);
    assert_eq!(
        path_observation(Err(PathProblem::Failed), "x").1,
        "Filesystem inspection failed; absence is not established."
    );
}

#[test]
fn unavailable_remote_and_evidence_summaries_are_reported() {
    let mut inputs = runtime_only(true, valid(vec![], vec![]));
    if let Some(project) = &mut inputs.project {
        if let ContractRead::Valid(contract) = &mut project.contract {
            contract.remote = None;
        }
    }
    let report = inspect(inputs);
    assert_eq!(find(&report, "remote.configuration").outcome, Outcome::Unverified);
    assert!(find(&report, "remote.configuration").required);

    let passed = RemoteCapability {
        outcome: Outcome::Passed,
        evidence: vec![
            Evidence { kind: "provider".into(), summary: "one".into(), location: None },
            Evidence { kind: "provider".into(), summary: "two".into(), location: None },
        ],
        diagnostic: None,
    };
    let unknown = |text: &str| RemoteCapability {
        outcome: Outcome::Unverified,
        evidence: vec![],
        diagnostic: Some(text.into()),
    };
    let mut report = DoctorReport::new(true, false);
    report.append_remote(&RemoteAudit {
        repository: "fixture/project".into(),
        ci: passed,
        trunk: unknown("a"),
        trunk_protection: unknown("b"),
        branch_lifecycle: unknown("c"),
        trunk_pipeline: unknown("d"),
    });
    let ids: Vec<&str> = report.findings.iter().map(|f| f.id.as_str()).collect();
    assert_eq!(ids, vec!["remote.ci", "remote.trunk", "remote.trunk_protection", "remote.trunk_pipeline", "remote.branch_lifecycle"]);
    assert_eq!(report.findings[0].observation, "one; two");
    assert!(!find(&report, "remote.trunk_pipeline").required);
    assert!(find(&report, "remote.trunk").required);
}

#[test]
fn ci_inventory_errors_stop_at_the_unreadable_file() {
    let files = vec![
        CiFile { key: ".gitlab-ci.yml".into(), source: CiSource::Unreadable },
        CiFile { key: ".github/workflows/ci.yml".into(), source: CiSource::Invalid("bad indentation".into()) },
    ];
    let mut inputs = runtime_only(false, ContractRead::Absent);
    inputs.project = Some(ProjectRead { contract: ContractRead::Absent, ci: Some(files) });
    let report = inspect(inputs);
    let ci: Vec<(&str, &str, Outcome)> = report
        .findings
        .iter()
        .filter(|f| f.id.starts_with("inventory.ci"))
        .map(|f| (f.id.as_str(), f.subject.as_str(), f.outcome))
        .collect();
    assert_eq!(
        ci,
        vec![
            ("inventory.ci_pins", ".github/workflows/ci.yml", Outcome::Error),
            ("inventory.ci", "local CI configuration paths", Outcome::Error),
        ]
    );
    assert_eq!(report.exit_code, 2);
}

#[test]
fn selected_plugins_are_required_and_failed_pins_block() {
    let inputs = DoctorInputs {
        remote_requested: false,
        plugin_selected: true,
        executable_recorded: false,
        plugin: PluginInventory {
            observations: vec![
                Observation { component: "plugin".into(), source: None, outcome: Outcome::Passed, detail: "ok".into() },
                Observation { component: "runtime_pin".into(), source: None, outcome: Outcome::Failed, detail: "old".into() },
            ],
            failed: true,
        },
        project: Some(ProjectRead { contract: ContractRead::Absent, ci: None }),
    };
    let report = inspect(inputs);
    assert!(find(&report, "inventory.plugin").required);
    assert!(find(&report, "inventory.runtime_pin").required);
    assert_eq!(find(&report, "runtime.identity").subject, "running CLI executable");
    let errors: Vec<&str> = report
        .findings
        .iter()
        .filter(|f| f.outcome == Outcome::Error)
        .map(|f| f.id.as_str())
        .collect();
    assert_eq!(errors, vec!["runtime.identity", "inventory.plugin", "inventory.ci"]);
    assert_eq!(report.exit_code, 2);
}

fn ready_contract() -> ContractRead {
    ContractRead::Valid(ValidContract {
        schema: 1,
        commands: vec![CommandCheck {
            name: "check".into(),
            directory_shown: "/project".into(),
            directory: DirectoryCheck::Usable(ProgramCheck::Located("/usr/bin/true".into())),
        }],
        authorities: vec![AuthorityCheck::Path { name: "work".into(), shown: "/project/docs".into(), check: Ok(()) }],
        gaps: ContractGaps {
            ci_unconfigured: false,
            coverage_unconfigured: false,
            delivery_migration_required: false,
            recovery_unconfigured: false,
            no_commands: false,
        },
        remote: None,
    })
}

#[test]
fn remote_is_explicit_and_missing_configuration_is_unverified() {
    let default = inspect(runtime_only(false, ready_contract()));
    assert!(!default.remote_requested);
    assert_eq!(default.exit_code, 0);
    let requested = inspect(runtime_only(true, ready_contract()));
    assert!(requested.remote_requested);
    assert_eq!(find(&requested, "remote.configuration").outcome, Outcome::Unverified);
    assert_eq!(requested.exit_code, 1);
    let blank = inspect(runtime_only(true, ContractRead::Absent));
    assert_eq!(find(&blank, "remote.blocked").outcome, Outcome::Unverified);
    assert_eq!(blank.exit_code, 1);
}
