use opdev::json::Json;
use opdev::manifest::CiProvider;
use opdev::outcome::Outcome;
use opdev::policy::{AccessPrincipal, GitlabBranchPolicy, RequiredCheck};
use opdev::remote::checks::compare;
use opdev::remote::jobs::{parse_job, reconcile_jobs, validate_snapshot, JobObservation};
use opdev::remote::pages::{JobPages, JobPagesNext, Pages, PagesNext};
use opdev::remote::protection::{github_branch, gitlab};
use opdev::remote::qualification::select_run;
use opdev::remote::rulesets::github_rulesets;
use opdev::remote::run::{
    github_observation, gitlab_observation, reconcile, validate, Repository, RunExpectation, RunObservation,
    RunVerification,
};

// ---------------------------------------------------------------------------
// JSON fixtures

fn obj(members: Vec<(&str, Json)>) -> Json {
    Json::Object(members.into_iter().map(|(k, v)| (k.to_string(), v)).collect())
}

fn text(s: &str) -> Json {
    Json::Text(s.to_string())
}

fn num(n: u64) -> Json {
    Json::UInt(n)
}

fn arr(values: Vec<Json>) -> Json {
    Json::Array(values)
}

fn dup(v: &Json) -> Json {
    match v {
        Json::Null => Json::Null,
        Json::Bool(b) => Json::Bool(*b),
        Json::UInt(n) => Json::UInt(*n),
        Json::OtherNumber(s) => Json::OtherNumber(s.clone()),
        Json::Text(s) => Json::Text(s.clone()),
        Json::Array(v) => Json::Array(v.iter().map(dup).collect()),
        Json::Object(m) => Json::Object(m.iter().map(|(k, v)| (k.clone(), dup(v))).collect()),
    }
}

/// `value[key] = new`, adding the member when it is absent.
fn set(v: &mut Json, key: &str, new: Json) {
    if let Json::Object(members) = v {
        for (k, slot) in members.iter_mut() {
            if k == key {
                *slot = new;
                return;
            }
        }
        members.push((key.to_string(), new));
    }
}

fn at<'a>(v: &'a mut Json, key: &str) -> &'a mut Json {
    match v {
        Json::Object(members) => &mut members.iter_mut().find(|(k, _)| k == key).unwrap().1,
        _ => panic!("not an object"),
    }
}

fn item(v: &mut Json, i: usize) -> &mut Json {
    match v {
        Json::Array(values) => &mut values[i],
        _ => panic!("not an array"),
    }
}

fn remove(v: &mut Json, key: &str) {
    if let Json::Object(members) = v {
        members.retain(|(k, _)| k != key);
    }
}

fn keys(v: &Json) -> Vec<String> {
    match v {
        Json::Object(members) => members.iter().map(|(k, _)| k.clone()).collect(),
        _ => vec![],
    }
}

const PROVIDERS: [CiProvider; 2] = [CiProvider::Github, CiProvider::Gitlab];

// ---------------------------------------------------------------------------
// Required jobs

fn job_expected() -> RunExpectation {
    RunExpectation {
        revision: "a".repeat(40),
        run_id: 1,
        reference: "main".into(),
        source: "push".into(),
        workflow_id: Some(2),
    }
}

fn row(provider: CiProvider, id: u64, name: &str, state: &str) -> Json {
    if provider == CiProvider::Github {
        obj(vec![
            ("id", num(id)),
            ("name", text(name)),
            ("run_id", num(1)),
            ("head_sha", text(&"a".repeat(40))),
            ("status", text("completed")),
            ("conclusion", text(state)),
        ])
    } else {
        obj(vec![
            ("id", num(id)),
            ("name", text(name)),
            ("pipeline", obj(vec![("id", num(1)), ("sha", text(&"a".repeat(40))), ("ref", text("main"))])),
            ("status", text(state)),
        ])
    }
}

fn page(provider: CiProvider, rows: Vec<Json>, total: u64) -> Json {
    if provider == CiProvider::Github {
        obj(vec![("total_count", num(total)), ("jobs", arr(rows))])
    } else {
        arr(rows)
    }
}

fn collect_pages(
    provider: CiProvider,
    expected: &RunExpectation,
    fetch: impl Fn(u32) -> Result<Json, String>,
) -> Result<Vec<JobObservation>, String> {
    let (mut pages, mut n) = JobPages::start(provider, expected.copy());
    loop {
        match pages.feed(fetch(n)) {
            JobPagesNext::Next(p, k) => {
                pages = p;
                n = k;
            }
            JobPagesNext::Done(result) => return result,
        }
    }
}

#[test]
fn paginates_to_find_later_required_job() -> Result<(), String> {
    for provider in PROVIDERS {
        let jobs = collect_pages(provider, &job_expected(), |n| {
            Ok(if n == 1 {
                page(provider, (1..=100).map(|id| row(provider, id, "other", "success")).collect(), 101)
            } else {
                page(provider, vec![row(provider, 101, "required", "success")], 101)
            })
        })?;
        assert_eq!(jobs.len(), 101);
        let result = reconcile_jobs(provider, &["required".into()], jobs, vec![]);
        assert_eq!(result.outcome, Outcome::Passed);
        assert_eq!(result.current[0].id, 101);
    }
    Ok(())
}

#[test]
fn missing_ambiguous_pending_or_failed_required_jobs_do_not_pass() -> Result<(), String> {
    for provider in PROVIDERS {
        for status in ["success", "failed", "failure", "canceled", "pending", "skipped", "neutral", "manual", "unknown"] {
            let job = parse_job(provider, &job_expected(), &row(provider, 1, "test", status))?;
            let result = reconcile_jobs(provider, &["test".into()], vec![job], vec![]);
            assert_eq!(
                result.outcome,
                match status {
                    "success" => Outcome::Passed,
                    "failed" | "failure" | "canceled" => Outcome::Failed,
                    _ => Outcome::Unverified,
                }
            );
        }
        let success = parse_job(provider, &job_expected(), &row(provider, 1, "test", "success"))?;
        assert_eq!(
            reconcile_jobs(provider, &["absent".into()], vec![success.copy()], vec![]).outcome,
            Outcome::Unverified
        );
        let mut duplicate = success.copy();
        duplicate.id = 2;
        assert_eq!(
            reconcile_jobs(provider, &["test".into()], vec![success.copy(), duplicate], vec![]).outcome,
            Outcome::Unverified
        );
        let failed = parse_job(provider, &job_expected(), &row(provider, 2, "failed", "failed"))?;
        assert_eq!(
            reconcile_jobs(provider, &["failed".into(), "absent".into()], vec![failed, success], vec![]).outcome,
            Outcome::Failed
        );
    }
    Ok(())
}

#[test]
fn current_failure_never_falls_back_to_prior_success_and_retries_remain_visible() -> Result<(), String> {
    let provider = CiProvider::Gitlab;
    let old = parse_job(provider, &job_expected(), &row(provider, 1, "test", "success"))?;
    let current = parse_job(provider, &job_expected(), &row(provider, 2, "test", "failed"))?;
    let result = reconcile_jobs(provider, &["test".into()], vec![current.copy()], vec![old, current]);
    assert_eq!(result.outcome, Outcome::Failed);
    assert_eq!(result.prior.len(), 1);
    assert_eq!(result.current[0].id, 2);
    Ok(())
}

#[test]
fn incomplete_invalid_duplicate_and_unavailable_pages_fail_closed() {
    for provider in PROVIDERS {
        assert!(collect_pages(provider, &job_expected(), |_| Err("HTTP 403".into())).is_err());
        assert!(collect_pages(provider, &job_expected(), |_| Ok(obj(vec![]))).is_err());
        assert!(collect_pages(provider, &job_expected(), |_| Ok(page(
            provider,
            (0..100).map(|_| row(provider, 1, "x", "success")).collect(),
            101
        )))
        .is_err());
        // A failure after a complete first page cannot be mistaken for completeness.
        assert!(collect_pages(provider, &job_expected(), |n| if n == 1 {
            Ok(page(provider, (1..=100).map(|id| row(provider, id, "x", "success")).collect(), 101))
        } else {
            Err("HTTP 403".into())
        })
        .is_err());
        assert!(collect_pages(provider, &job_expected(), |n| {
            Ok(page(
                provider,
                (1..=100).map(|id| row(provider, u64::from(n) * 100 + id, "x", "success")).collect(),
                1001,
            ))
        })
        .is_err());
        for key in ["id", "name", "status"] {
            let mut invalid = row(provider, 1, "x", "success");
            set(&mut invalid, key, Json::Null);
            assert!(parse_job(provider, &job_expected(), &invalid).is_err());
        }
        let mut wrong = job_expected();
        wrong.run_id = 9;
        assert!(parse_job(provider, &wrong, &row(provider, 1, "x", "success")).is_err());
        wrong = job_expected();
        wrong.revision = "b".repeat(40);
        assert!(parse_job(provider, &wrong, &row(provider, 1, "x", "success")).is_err());
    }
    assert!(collect_pages(CiProvider::Github, &job_expected(), |_| Ok(page(CiProvider::Github, vec![], 1))).is_err());
}

fn run_report(provider: CiProvider) -> RunVerification {
    let mut identity = job_expected();
    if provider == CiProvider::Gitlab {
        identity.workflow_id = None;
    }
    RunVerification {
        schema: 2,
        repository: "team/project".into(),
        provider,
        observed: Some(RunObservation {
            identity: identity.copy(),
            status: "success".into(),
            conclusion: None,
            attempt: if provider == CiProvider::Github { Some(1) } else { None },
        }),
        expected: identity,
        outcome: Outcome::Passed,
        qualification: Outcome::Unverified,
        diagnostics: vec!["Scope is limited".into()],
        jobs: None,
    }
}

#[test]
fn snapshot_changes_or_missing_history_are_unverified() -> Result<(), String> {
    for provider in PROVIDERS {
        let before = run_report(provider);
        let mut after = run_report(provider);
        let jobs = vec![parse_job(provider, &job_expected(), &row(provider, 1, "test", "success"))?];
        assert!(validate_snapshot(&before, &after, &jobs, &jobs, &jobs).is_ok());
        assert!(validate_snapshot(&before, &after, &jobs, &[], &jobs).is_err());
        after.outcome = Outcome::Unverified;
        assert!(validate_snapshot(&before, &after, &jobs, &jobs, &jobs).is_err());
        after = run_report(provider);
        after.observed.as_mut().ok_or("fixture observation")?.attempt = Some(2);
        assert!(validate_snapshot(&before, &after, &jobs, &jobs, &jobs).is_err());
        if provider == CiProvider::Gitlab {
            assert!(validate_snapshot(&before, &run_report(provider), &jobs, &jobs, &[]).is_err());
        }
    }
    Ok(())
}

// ---------------------------------------------------------------------------
// Trunk qualification

fn expected() -> RunExpectation {
    RunExpectation {
        revision: "a".repeat(40),
        run_id: 9,
        reference: "main".into(),
        source: "push".into(),
        workflow_id: Some(2),
    }
}

fn checks() -> Vec<RequiredCheck> {
    vec![RequiredCheck { name: "test".into(), producer_id: 7 }]
}

fn status(provider: CiProvider, id: u64, state: &str) -> Json {
    if provider == CiProvider::Github {
        obj(vec![
            ("id", num(id)),
            ("name", text("test")),
            ("app", obj(vec![("id", num(7))])),
            ("head_sha", text(&"a".repeat(40))),
            ("status", text("completed")),
            ("conclusion", text(state)),
        ])
    } else {
        obj(vec![
            ("id", num(id)),
            ("name", text("test")),
            ("creator", obj(vec![("id", num(7))])),
            ("sha", text(&"a".repeat(40))),
            ("ref", text("main")),
            ("pipeline_id", num(9)),
            ("status", text(state)),
        ])
    }
}

#[test]
fn newest_matching_run_is_selected_without_success_filtering() -> Result<(), String> {
    for provider in PROVIDERS {
        let row = if provider == CiProvider::Github {
            obj(vec![
                ("id", num(1)),
                ("head_sha", text(&"a".repeat(40))),
                ("head_branch", text("main")),
                ("event", text("push")),
                ("workflow_id", num(2)),
                ("conclusion", text("success")),
            ])
        } else {
            obj(vec![
                ("id", num(1)),
                ("sha", text(&"a".repeat(40))),
                ("ref", text("main")),
                ("source", text("push")),
                ("status", text("success")),
            ])
        };
        let mut newer = dup(&row);
        set(&mut newer, "id", num(2));
        set(&mut newer, "status", text("pending"));
        set(&mut newer, "conclusion", Json::Null);
        let mut unrelated = dup(&row);
        set(&mut unrelated, "id", num(3));
        if provider == CiProvider::Github {
            set(&mut unrelated, "workflow_id", num(99));
        } else {
            set(&mut unrelated, "source", text("schedule"));
        }
        let mut stale = dup(&row);
        set(&mut stale, "id", num(4));
        set(&mut stale, if provider == CiProvider::Github { "head_sha" } else { "sha" }, text(&"b".repeat(40)));
        assert_eq!(
            select_run(provider, &expected(), &[dup(&row), newer, dup(&unrelated), dup(&stale)])?,
            Some(2)
        );
        assert_eq!(select_run(provider, &expected(), &[unrelated, stale])?, None);
        assert!(select_run(provider, &expected(), &[dup(&row), row]).is_err());
    }
    Ok(())
}

#[test]
fn trusted_check_sources_pending_missing_and_failures_are_not_hidden() -> Result<(), String> {
    for provider in PROVIDERS {
        let success = status(provider, 1, "success");
        assert!(compare(provider, &expected(), &checks(), std::slice::from_ref(&success))?.is_ok());
        for verdict in ["failure", "failed", "cancelled", "timed_out"] {
            assert!(compare(provider, &expected(), &checks(), &[dup(&success), status(provider, 2, verdict)])?.is_err());
        }
        for verdict in ["pending", "skipped", "neutral", "manual", "unknown"] {
            assert!(compare(provider, &expected(), &checks(), &[dup(&success), status(provider, 2, verdict)]).is_err());
        }
        assert!(compare(provider, &expected(), &checks(), &[]).is_err());
        let mut wrong = status(provider, 2, "success");
        set(at(&mut wrong, if provider == CiProvider::Github { "app" } else { "creator" }), "id", num(8));
        assert!(compare(provider, &expected(), &checks(), &[dup(&success), wrong])?.is_err());
        let mut wrong = status(provider, 2, "success");
        set(&mut wrong, if provider == CiProvider::Github { "head_sha" } else { "sha" }, text(&"b".repeat(40)));
        assert!(compare(provider, &expected(), &checks(), &[wrong])?.is_err());
        assert!(compare(provider, &expected(), &checks(), &[dup(&success), success]).is_err());
    }
    Ok(())
}

fn branch_policy() -> Json {
    obj(vec![
        ("allow_force_pushes", obj(vec![("enabled", Json::Bool(false))])),
        ("allow_deletions", obj(vec![("enabled", Json::Bool(false))])),
        ("enforce_admins", obj(vec![("enabled", Json::Bool(true))])),
        ("required_pull_request_reviews", obj(vec![])),
        (
            "required_status_checks",
            obj(vec![
                ("strict", Json::Bool(true)),
                ("checks", arr(vec![obj(vec![("context", text("test")), ("app_id", num(7))])])),
            ]),
        ),
    ])
}

#[test]
fn github_branch_policy_checks_bind_sources_and_fail_closed() -> Result<(), String> {
    let base = branch_policy();
    assert!(github_branch(&base, true, &checks())?.is_ok());
    for key in ["allow_force_pushes", "allow_deletions"] {
        let mut drift = dup(&base);
        set(at(&mut drift, key), "enabled", Json::Bool(true));
        assert!(github_branch(&drift, true, &checks())?.is_err());
    }
    let mut drift = dup(&base);
    set(at(&mut drift, "enforce_admins"), "enabled", Json::Bool(false));
    assert!(github_branch(&drift, true, &checks())?.is_err());
    let mut drift = dup(&base);
    set(item(at(at(&mut drift, "required_status_checks"), "checks"), 0), "app_id", num(9));
    assert!(github_branch(&drift, true, &checks())?.is_err());
    set(item(at(at(&mut drift, "required_status_checks"), "checks"), 0), "app_id", Json::Null);
    assert!(github_branch(&drift, true, &checks()).is_err());
    assert!(github_branch(&obj(vec![]), true, &checks()).is_err());
    assert!(github_branch(&base, false, &checks())?.is_err());
    Ok(())
}

fn active_rules() -> Vec<Json> {
    vec![
        obj(vec![("type", text("pull_request")), ("ruleset_id", num(11))]),
        obj(vec![("type", text("non_fast_forward")), ("ruleset_id", num(11))]),
        obj(vec![("type", text("deletion")), ("ruleset_id", num(11))]),
        obj(vec![
            ("type", text("required_status_checks")),
            ("ruleset_id", num(11)),
            (
                "parameters",
                obj(vec![
                    ("strict_required_status_checks_policy", Json::Bool(true)),
                    (
                        "required_status_checks",
                        arr(vec![obj(vec![("context", text("test")), ("integration_id", num(7))])]),
                    ),
                ]),
            ),
        ]),
    ]
}

#[test]
fn rulesets_are_distinct_from_classic_protection_and_missing_bypass_visibility_is_unknown() -> Result<(), String> {
    let active = active_rules();
    let detail = obj(vec![
        ("id", num(11)),
        ("enforcement", text("active")),
        ("target", text("branch")),
        ("bypass_actors", arr(vec![])),
        ("rules", arr(active.iter().map(dup).collect())),
    ]);
    assert!(github_rulesets(&[11], true, &checks(), &active, std::slice::from_ref(&detail))?.is_ok());
    assert!(github_rulesets(&[12], true, &checks(), &active, std::slice::from_ref(&detail))?.is_err());
    let mut hidden = dup(&detail);
    remove(&mut hidden, "bypass_actors");
    assert!(github_rulesets(&[11], true, &checks(), &active, &[hidden]).is_err());
    let mut bypass = dup(&detail);
    set(
        &mut bypass,
        "bypass_actors",
        arr(vec![obj(vec![
            ("actor_type", text("Integration")),
            ("actor_id", num(7)),
            ("bypass_mode", text("always")),
        ])]),
    );
    assert!(github_rulesets(&[11], true, &checks(), &active, &[bypass])?.is_err());
    let mut disabled = dup(&detail);
    set(&mut disabled, "enforcement", text("evaluate"));
    assert!(github_rulesets(&[11], true, &checks(), &active, &[disabled])?.is_err());
    assert!(github_rulesets(&[11], true, &checks(), &active[1..], std::slice::from_ref(&detail)).is_err());
    let mut weakened = detail;
    set(&mut weakened, "rules", arr(active[1..].iter().map(dup).collect()));
    assert!(github_rulesets(&[11], true, &checks(), &active[1..], &[weakened])?.is_err());
    Ok(())
}

#[test]
fn gitlab_merge_settings_and_all_matching_wildcard_access_rules_are_compared() -> Result<(), String> {
    let project = obj(vec![
        ("only_allow_merge_if_pipeline_succeeds", Json::Bool(true)),
        ("allow_merge_on_skipped_pipeline", Json::Bool(false)),
    ]);
    let expected = vec![GitlabBranchPolicy {
        name: "ma*".into(),
        push: vec![AccessPrincipal::Role(0)],
        merge: vec![AccessPrincipal::Role(40)],
    }];
    let rule = obj(vec![
        ("name", text("ma*")),
        ("allow_force_push", Json::Bool(false)),
        ("push_access_levels", arr(vec![obj(vec![("access_level", num(0))])])),
        ("merge_access_levels", arr(vec![obj(vec![("access_level", num(40))])])),
    ]);
    assert!(gitlab(&project, "main", &expected, std::slice::from_ref(&rule))?.is_ok());
    let other = obj(vec![("name", text("release/*"))]);
    assert!(gitlab(&project, "main", &expected, &[dup(&rule), other])?.is_ok());
    let mut bypass = dup(&rule);
    set(&mut bypass, "name", text("*"));
    assert!(gitlab(&project, "main", &expected, &[dup(&rule), bypass])?.is_err());
    let mut drift = dup(&rule);
    *item(at(&mut drift, "push_access_levels"), 0) = obj(vec![("access_level", num(40))]);
    assert!(gitlab(&project, "main", &expected, &[drift])?.is_err());
    let mut drift = dup(&project);
    set(&mut drift, "allow_merge_on_skipped_pipeline", Json::Bool(true));
    assert!(gitlab(&drift, "main", &expected, std::slice::from_ref(&rule))?.is_err());
    assert!(gitlab(&obj(vec![]), "main", &expected, std::slice::from_ref(&rule)).is_err());
    assert!(gitlab(&project, "main", &expected, &[])?.is_err());
    Ok(())
}

fn pages(field: Option<&str>, fetch: impl Fn(u64) -> Result<Json, String>) -> Result<Vec<Json>, String> {
    let (mut state, mut n) = Pages::start(field);
    loop {
        match state.feed(fetch(u64::from(n))) {
            PagesNext::Next(p, k) => {
                state = p;
                n = k;
            }
            PagesNext::Done(result) => return result,
        }
    }
}

fn numbers(values: impl Iterator<Item = u64>) -> Json {
    arr(values.map(num).collect())
}

#[test]
fn pagination_bounds_missing_pages_and_permission_errors_never_qualify() -> Result<(), String> {
    let result = pages(None, |n| Ok(if n == 1 { numbers(1..=100) } else { numbers(101..=101) }))?;
    assert_eq!(result.len(), 101);
    assert!(pages(None, |_| Err("HTTP 403".into())).is_err());
    assert!(pages(None, |n| if n == 1 { Ok(numbers(1..=100)) } else { Err("HTTP 401".into()) }).is_err());
    assert!(pages(None, |_| Ok(numbers(std::iter::repeat(1).take(100)))).is_err());
    assert!(pages(Some("checks"), |_| Ok(obj(vec![("total_count", num(2)), ("checks", numbers(1..=1))]))).is_err());
    assert!(pages(None, |n| Ok(numbers((1..=100).map(|id| n * 100 + id)))).is_err());
    Ok(())
}

#[test]
fn malformed_check_does_not_hide_another_required_failure() -> Result<(), String> {
    let mut required = checks();
    required.push(RequiredCheck { name: "broken".into(), producer_id: 7 });
    let mut malformed = status(CiProvider::Github, 1, "success");
    set(&mut malformed, "app", Json::Null);
    let mut failure = status(CiProvider::Github, 2, "failure");
    set(&mut failure, "name", text("broken"));
    assert!(compare(CiProvider::Github, &expected(), &required, &[malformed, failure])?.is_err());
    Ok(())
}

// ---------------------------------------------------------------------------
// Run verification

fn fixture(provider: CiProvider) -> (Repository, RunExpectation, Json) {
    let repo = Repository { provider, namespace: "team".into(), name: "project".into() };
    let github = provider == CiProvider::Github;
    let expected = RunExpectation {
        revision: "a".repeat(40),
        run_id: 123,
        reference: "main".into(),
        source: "push".into(),
        workflow_id: if github { Some(456) } else { None },
    };
    let value = if github {
        obj(vec![
            ("conclusion", text("success")),
            ("event", text("push")),
            ("head_branch", text("main")),
            ("head_sha", text(&"a".repeat(40))),
            ("id", num(123)),
            ("repository", obj(vec![("full_name", text("team/project"))])),
            ("run_attempt", num(2)),
            ("status", text("completed")),
            ("workflow_id", num(456)),
        ])
    } else {
        obj(vec![
            ("id", num(123)),
            ("project_id", num(99)),
            ("ref", text("main")),
            ("sha", text(&"a".repeat(40))),
            ("source", text("push")),
            ("status", text("success")),
        ])
    };
    (repo, expected, value)
}

fn observe(provider: CiProvider, value: &Json) -> Result<RunObservation, String> {
    if provider == CiProvider::Github {
        github_observation(value, "team/project")
    } else {
        gitlab_observation(value, 99)
    }
}

#[test]
fn both_providers_require_the_requested_identity_before_passing() {
    for provider in PROVIDERS {
        let (repository, expected, value) = fixture(provider);
        assert!(validate(&repository, &expected).is_ok());
        let report = reconcile(&repository, &expected, observe(provider, &value));
        assert_eq!(report.outcome, Outcome::Passed);
        assert_eq!(report.qualification, Outcome::Unverified);
        for field in ["revision", "run", "ref", "source", "workflow"] {
            let mut wrong = expected.copy();
            match field {
                "revision" => wrong.revision = "b".repeat(40),
                "run" => wrong.run_id += 1,
                "ref" => wrong.reference = "different-branch".into(),
                "source" => wrong.source = "schedule".into(),
                _ if provider == CiProvider::Github => wrong.workflow_id = Some(789),
                _ => continue,
            }
            let report = reconcile(&repository, &wrong, observe(provider, &value));
            assert_eq!(report.outcome, Outcome::Failed, "{provider:?}: {field}");
            assert!(report.observed.is_some());
        }
    }
}

#[test]
fn pending_missing_and_unsupported_conclusions_never_pass() {
    for provider in PROVIDERS {
        let (repository, expected, base) = fixture(provider);
        let verdict = if provider == CiProvider::Github { "conclusion" } else { "status" };
        for status in ["running", "pending", "queued", "skipped", "neutral", "manual", "unknown"] {
            let mut value = dup(&base);
            set(&mut value, verdict, text(status));
            assert_eq!(reconcile(&repository, &expected, observe(provider, &value)).outcome, Outcome::Unverified);
        }
        for status in ["failed", "failure", "canceled", "cancelled", "timed_out"] {
            let mut value = dup(&base);
            set(&mut value, verdict, text(status));
            assert_eq!(reconcile(&repository, &expected, observe(provider, &value)).outcome, Outcome::Failed);
        }
        for field in keys(&base) {
            if field == "conclusion" {
                continue;
            }
            let mut value = dup(&base);
            remove(&mut value, &field);
            assert_eq!(
                reconcile(&repository, &expected, observe(provider, &value)).outcome,
                Outcome::Unverified,
                "{field}"
            );
        }
    }
    let (repo, expected, mut github) = fixture(CiProvider::Github);
    set(&mut github, "status", text("in_progress"));
    assert_eq!(reconcile(&repo, &expected, observe(CiProvider::Github, &github)).outcome, Outcome::Unverified);
}

#[test]
fn invalid_arguments_are_rejected_before_network_or_credential_lookup() {
    let (repo, base, _) = fixture(CiProvider::Github);
    for revision in ["HEAD", "abc123", "not-a-full-commit-id"] {
        let mut invalid = base.copy();
        invalid.revision = revision.into();
        assert!(validate(&repo, &invalid).is_err());
    }
    let mut expected = base.copy();
    expected.run_id = 0;
    assert!(validate(&repo, &expected).is_err());
    expected = base.copy();
    expected.workflow_id = None;
    assert!(validate(&repo, &expected).is_err());
    expected = base.copy();
    expected.reference = "main\ncontrol".into();
    assert!(validate(&repo, &expected).is_err());
    let (gitlab_repo, _, _) = fixture(CiProvider::Gitlab);
    assert!(validate(&gitlab_repo, &base).is_err());
    let unsafe_repo = Repository { provider: CiProvider::Github, namespace: "..".into(), name: "project".into() };
    assert!(validate(&unsafe_repo, &base).is_err());
}

#[test]
fn wrong_repository_and_project_responses_never_pass() {
    let (repo, expected, mut value) = fixture(CiProvider::Github);
    set(at(&mut value, "repository"), "full_name", text("unrelated/project"));
    assert_eq!(reconcile(&repo, &expected, observe(CiProvider::Github, &value)).outcome, Outcome::Unverified);
    let (repo, expected, mut value) = fixture(CiProvider::Gitlab);
    set(&mut value, "project_id", num(100));
    assert_eq!(reconcile(&repo, &expected, observe(CiProvider::Gitlab, &value)).outcome, Outcome::Unverified);
}
