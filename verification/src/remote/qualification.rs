//! Exact current-trunk qualification from reviewed policy: the decisions taken
//! on each provider observation, fail closed.
use vstd::prelude::*;
use crate::json::{Json, index, member};
use crate::manifest::{CiProvider, ProjectManifest};
use crate::policy::{ProtectionPolicy, QualificationPolicy};
use crate::remote::checks::{SpecVerdict, verdict_view};
use crate::remote::protection::{github_branch, github_branch_spec, gitlab, gitlab_spec};
use crate::remote::rulesets::{github_rulesets, github_rulesets_spec};
use crate::remote::run::{
    RemoteError, Repository, RunExpectation, expectation_ok, invalid_expectation_message, nested,
    number, spec_number, spec_string, string, text_result, validate,
};
use crate::outcome::{Evidence, EvidenceView, Outcome, evidence_views};
use crate::policy::RequiredCheck;
use crate::remote::capability::{
    CapabilityView, RemoteCapability, capability, capability_view, unverified, unverified_view,
};
use crate::remote::checks::{compare, compare_spec};
use crate::text::{
    copy_string, eq_ignore_ascii_case, join_texts, joined, joined_with, owned,
    same_ignoring_ascii_case, same_text, sort_texts, sorted_texts, text_views,
};

verus! {

pub open spec fn duplicate_run_message() -> Seq<char> {
    "Duplicate run identity in provider collection"@
}

/// Whether a run row is a run of the expected revision, trunk, source and
/// workflow; fields are read only as far as the comparison needs them.
pub open spec fn run_matches(provider: CiProvider, expected: RunExpectation, row: Json) -> Result<bool, Seq<char>> {
    let github = provider == CiProvider::Github;
    match spec_string(row, if github { "head_sha"@ } else { "sha"@ }) {
        Err(e) => Err(e),
        Ok(sha) => if !same_ignoring_ascii_case(sha, expected.revision@) {
            Ok(false)
        } else {
            match spec_string(row, if github { "head_branch"@ } else { "ref"@ }) {
                Err(e) => Err(e),
                Ok(reference) => if reference != expected.reference@ {
                    Ok(false)
                } else if github {
                    match spec_string(row, "event"@) {
                        Err(e) => Err(e),
                        Ok(event) => if event != expected.source@ {
                            Ok(false)
                        } else {
                            match spec_number(row, "workflow_id"@) {
                                Err(e) => Err(e),
                                Ok(w) => Ok(Some(w) == expected.workflow_id),
                            }
                        },
                    }
                } else if member(row, "source"@) is Some {
                    match spec_string(row, "source"@) {
                        Err(e) => Err(e),
                        Ok(source) => Ok(source == expected.source@),
                    }
                } else {
                    Ok(true)
                },
            }
        },
    }
}

/// Run identities seen so far and the newest matching one.
pub type Selection = Result<(Seq<u64>, Option<u64>), Seq<char>>;

pub open spec fn newer(selected: Option<u64>, id: u64) -> Option<u64> {
    match selected {
        None => Some(id),
        Some(old) => Some(if old < id { id } else { old }),
    }
}

pub open spec fn select_scan(provider: CiProvider, expected: RunExpectation, rows: Seq<Json>) -> Selection
    decreases rows.len(),
{
    if rows.len() == 0 {
        Ok((Seq::empty(), None))
    } else {
        match select_scan(provider, expected, rows.drop_last()) {
            Err(e) => Err(e),
            Ok((ids, selected)) => {
                let row = rows.last();
                match spec_number(row, "id"@) {
                    Err(e) => Err(e),
                    Ok(id) => if ids.contains(id) {
                        Err(duplicate_run_message())
                    } else {
                        match run_matches(provider, expected, row) {
                            Err(e) => Err(e),
                            Ok(true) => Ok((ids.push(id), newer(selected, id))),
                            Ok(false) => Ok((ids.push(id), selected)),
                        }
                    },
                }
            },
        }
    }
}

/// The newest matching run, whatever its status; unknown rows make the
/// selection unknown.
pub open spec fn select_run_spec(provider: CiProvider, expected: RunExpectation, rows: Seq<Json>) -> Result<Option<u64>, Seq<char>> {
    match select_scan(provider, expected, rows) {
        Err(e) => Err(e),
        Ok((_, selected)) => Ok(selected),
    }
}

proof fn lemma_select_error(provider: CiProvider, expected: RunExpectation, rows: Seq<Json>, n: int)
    requires
        0 <= n <= rows.len(),
        select_scan(provider, expected, rows.subrange(0, n)) is Err,
    ensures
        select_scan(provider, expected, rows) == select_scan(provider, expected, rows.subrange(0, n)),
    decreases rows.len() - n,
{
    if n < rows.len() {
        assert(rows.subrange(0, n + 1).drop_last() =~= rows.subrange(0, n));
        lemma_select_error(provider, expected, rows, n + 1);
    } else {
        assert(rows.subrange(0, n) =~= rows);
    }
}

fn matches_run(provider: CiProvider, expected: &RunExpectation, row: &Json) -> (r: Result<bool, String>)
    ensures
        match r {
            Ok(b) => run_matches(provider, *expected, *row) == Ok::<bool, Seq<char>>(b),
            Err(e) => run_matches(provider, *expected, *row) == Err::<bool, Seq<char>>(e@),
        },
{
    proof {
        reveal_strlit("head_sha");
        reveal_strlit("sha");
        reveal_strlit("head_branch");
        reveal_strlit("ref");
        reveal_strlit("event");
        reveal_strlit("workflow_id");
        reveal_strlit("source");
    }
    let github = provider == CiProvider::Github;
    let sha = match string(row, if github { "head_sha" } else { "sha" }) {
        Ok(s) => s,
        Err(e) => return Err(e),
    };
    if !eq_ignore_ascii_case(sha.as_str(), expected.revision.as_str()) {
        return Ok(false);
    }
    let reference = match string(row, if github { "head_branch" } else { "ref" }) {
        Ok(s) => s,
        Err(e) => return Err(e),
    };
    if !same_text(reference.as_str(), expected.reference.as_str()) {
        return Ok(false);
    }
    if github {
        let event = match string(row, "event") {
            Ok(s) => s,
            Err(e) => return Err(e),
        };
        if !same_text(event.as_str(), expected.source.as_str()) {
            return Ok(false);
        }
        match number(row, "workflow_id") {
            Ok(w) => Ok(Some(w) == expected.workflow_id),
            Err(e) => Err(e),
        }
    } else if row.get("source").is_some() {
        match string(row, "source") {
            Ok(s) => Ok(same_text(s.as_str(), expected.source.as_str())),
            Err(e) => Err(e),
        }
    } else {
        Ok(true)
    }
}

fn id_seen(ids: &Vec<u64>, id: u64) -> (r: bool)
    ensures
        r == ids@.contains(id),
{
    let mut i: usize = 0;
    while i < ids.len()
        invariant
            i <= ids@.len(),
            forall|k: int| 0 <= k < i ==> ids@[k] != id,
        decreases ids.len() - i,
    {
        if ids[i] == id {
            assert(ids@[i as int] == id);
            return true;
        }
        i = i + 1;
    }
    false
}

/// The newest run matching the expected revision, trunk, source and
/// workflow; no status filtering, so a newer pending or failed run wins.
pub fn select_run(provider: CiProvider, expected: &RunExpectation, rows: &[Json]) -> (r: Result<Option<u64>, String>)
    ensures
        match r {
            Ok(s) => select_run_spec(provider, *expected, rows@) == Ok::<Option<u64>, Seq<char>>(s),
            Err(e) => select_run_spec(provider, *expected, rows@) == Err::<Option<u64>, Seq<char>>(e@),
        },
{
    proof {
        reveal_strlit("id");
        reveal_strlit("Duplicate run identity in provider collection");
    }
    let mut ids: Vec<u64> = Vec::new();
    let mut selected: Option<u64> = None;
    let mut i: usize = 0;
    assert(rows@.subrange(0, 0) =~= Seq::<Json>::empty());
    while i < rows.len()
        invariant
            i <= rows@.len(),
            select_scan(provider, *expected, rows@.subrange(0, i as int)) == Ok::<(Seq<u64>, Option<u64>), Seq<char>>((ids@, selected)),
        decreases rows.len() - i,
    {
        assert(rows@.subrange(0, i + 1).drop_last() =~= rows@.subrange(0, i as int));
        assert(rows@.subrange(0, i + 1).last() == rows@[i as int]);
        let id = match number(&rows[i], "id") {
            Ok(n) => n,
            Err(e) => {
                proof { lemma_select_error(provider, *expected, rows@, i + 1); }
                return Err(e);
            },
        };
        if id_seen(&ids, id) {
            proof { lemma_select_error(provider, *expected, rows@, i + 1); }
            return Err(owned("Duplicate run identity in provider collection"));
        }
        match matches_run(provider, expected, &rows[i]) {
            Err(e) => {
                proof { lemma_select_error(provider, *expected, rows@, i + 1); }
                return Err(e);
            },
            Ok(true) => {
                selected = match selected {
                    None => Some(id),
                    Some(old) => Some(if old < id { id } else { old }),
                };
            },
            Ok(false) => {},
        }
        ids.push(id);
        i = i + 1;
    }
    assert(rows@.subrange(0, rows@.len() as int) =~= rows@);
    Ok(selected)
}

pub open spec fn other_branch_message() -> Seq<char> {
    "Provider returned a different branch"@
}

/// The head revision of a branch from the provider's branch response.
pub open spec fn branch_revision_spec(provider: CiProvider, branch: Seq<char>, value: Json) -> Result<Seq<char>, Seq<char>> {
    match spec_string(value, "name"@) {
        Err(e) => Err(e),
        Ok(name) => if name != branch {
            Err(other_branch_message())
        } else {
            spec_string(index(value, "commit"@), if provider == CiProvider::Github { "sha"@ } else { "id"@ })
        },
    }
}

/// Reads the head revision of `branch` from the provider's response, which
/// must describe that branch.
pub fn branch_revision(provider: CiProvider, branch: &str, value: &Json) -> (r: Result<String, String>)
    ensures
        text_result(r) == branch_revision_spec(provider, branch@, *value),
{
    proof {
        reveal_strlit("name");
        reveal_strlit("commit");
        reveal_strlit("sha");
        reveal_strlit("id");
        reveal_strlit("Provider returned a different branch");
    }
    let name = match string(value, "name") {
        Ok(n) => n,
        Err(e) => return Err(e),
    };
    if !same_text(name.as_str(), branch) {
        return Err(owned("Provider returned a different branch"));
    }
    let null = Json::Null;
    string(nested(value, "commit", &null), if provider == CiProvider::Github { "sha" } else { "id" })
}

/// What the provider reported for the reviewed protection policy, each read
/// or the reason it failed, in the order they are requested.
#[derive(Debug)]
pub enum ProtectionObservation {
    /// Classic branch protection settings.
    Branch(Result<Json, String>),
    /// Active branch rules, then the details of each reviewed ruleset.
    Rulesets { active: Result<Vec<Json>, String>, details: Result<Vec<Json>, String> },
    /// Project merge settings, then all protected-branch rules.
    Gitlab { project: Result<Json, String>, rules: Result<Vec<Json>, String> },
}

/// The reviewed protection policy compared with what the provider reported;
/// a failed read makes the comparison unknown.
pub open spec fn protection_spec(policy: QualificationPolicy, branch: Seq<char>, observed: ProtectionObservation) -> SpecVerdict {
    match (policy.protection, observed) {
        (ProtectionPolicy::GithubBranch { strict }, ProtectionObservation::Branch(v)) => match v {
            Err(e) => Err(e@),
            Ok(value) => github_branch_spec(value, strict, policy.required_checks@),
        },
        (ProtectionPolicy::GithubRulesets { ids, strict }, ProtectionObservation::Rulesets { active, details }) => match active {
            Err(e) => Err(e@),
            Ok(a) => match details {
                Err(e) => Err(e@),
                Ok(d) => github_rulesets_spec(ids@, strict, policy.required_checks@, a@, d@),
            },
        },
        (ProtectionPolicy::Gitlab { rules }, ProtectionObservation::Gitlab { project, rules: observed_rules }) => match project {
            Err(e) => Err(e@),
            Ok(p) => match observed_rules {
                Err(e) => Err(e@),
                Ok(o) => gitlab_spec(p, branch, rules@, o@),
            },
        },
        _ => Err(mismatched_observation_message()),
    }
}

pub open spec fn mismatched_observation_message() -> Seq<char> {
    "Provider observation does not match the reviewed protection policy"@
}

/// Compares the reviewed protection policy with the provider's settings.
pub fn protection(policy: &QualificationPolicy, branch: &str, observed: &ProtectionObservation) -> (r: Result<Result<(), String>, String>)
    ensures
        verdict_view(r) == protection_spec(*policy, branch@, *observed),
{
    proof { reveal_strlit("Provider observation does not match the reviewed protection policy"); }
    match (&policy.protection, observed) {
        (ProtectionPolicy::GithubBranch { strict }, ProtectionObservation::Branch(v)) => match v {
            Err(e) => Err(copy_string(e)),
            Ok(value) => github_branch(value, *strict, policy.required_checks.as_slice()),
        },
        (ProtectionPolicy::GithubRulesets { ids, strict }, ProtectionObservation::Rulesets { active, details }) => match active {
            Err(e) => Err(copy_string(e)),
            Ok(a) => match details {
                Err(e) => Err(copy_string(e)),
                Ok(d) => github_rulesets(ids.as_slice(), *strict, policy.required_checks.as_slice(), a.as_slice(), d.as_slice()),
            },
        },
        (ProtectionPolicy::Gitlab { rules }, ProtectionObservation::Gitlab { project, rules: observed_rules }) => match project {
            Err(e) => Err(copy_string(e)),
            Ok(p) => match observed_rules {
                Err(e) => Err(copy_string(e)),
                Ok(o) => gitlab(p, branch, rules.as_slice(), o.as_slice()),
            },
        },
        _ => Err(owned("Provider observation does not match the reviewed protection policy")),
    }
}


/// Provider check rows, each with the compact JSON text of its identity
/// (id, name, producer, revision, status and conclusion).
#[derive(Debug)]
pub struct CheckRows {
    pub rows: Vec<Json>,
    pub identities: Vec<String>,
}

/// Whether a row's `name` is the name of a required check.
pub open spec fn required_name(row: Json, required: Seq<RequiredCheck>) -> bool {
    match index(row, "name"@) {
        Json::Text(n) => exists|k: int| 0 <= k < required.len() && (#[trigger] required[k]).name@ == n@,
        _ => false,
    }
}

/// The identities of the rows named like a required check, in row order.
pub open spec fn required_identities(rows: Seq<Json>, identities: Seq<Seq<char>>, required: Seq<RequiredCheck>) -> Seq<Seq<char>>
    decreases rows.len(),
{
    if rows.len() == 0 || identities.len() == 0 {
        Seq::empty()
    } else {
        let p = required_identities(rows.drop_last(), identities.drop_last(), required);
        if required_name(rows.last(), required) {
            p.push(identities.last())
        } else {
            p
        }
    }
}

pub open spec fn inventory_summary(rows: Seq<Json>, identities: Seq<Seq<char>>, required: Seq<RequiredCheck>) -> Seq<char> {
    "Observed required-name check identities: "@ + joined_with(sorted_texts(required_identities(rows, identities, required)), ", "@)
}

pub open spec fn checks_summary() -> Seq<char> {
    "Required check names, producer identities and statuses match"@
}

/// The checks capability: the producer-bound comparison, with the sorted
/// identities of all rows named like a required check as evidence.
pub open spec fn checks_view(provider: CiProvider, expected: RunExpectation, policy: QualificationPolicy, observed: Result<CheckRows, String>) -> CapabilityView {
    match observed {
        Err(reason) => unverified_view(reason@),
        Ok(cr) => {
            let c = capability_view(compare_spec(provider, expected, policy.required_checks@, cr.rows@), checks_summary());
            CapabilityView {
                evidence: c.evidence.push(("remote_check_inventory"@, inventory_summary(cr.rows@, text_views(cr.identities@), policy.required_checks@), None)),
                ..c
            }
        },
    }
}

/// Whether check rows are to be fetched at all: only when checks are required.
pub fn needs_check_rows(policy: &QualificationPolicy) -> (r: bool)
    ensures
        r == (policy.required_checks@.len() > 0),
{
    policy.required_checks.len() > 0
}

fn named_like_required(row: &Json, required: &[RequiredCheck]) -> (r: bool)
    ensures
        r == required_name(*row, required@),
{
    proof { reveal_strlit("name"); }
    match row.get("name") {
        Some(Json::Text(n)) => {
            let mut k: usize = 0;
            while k < required.len()
                invariant
                    k <= required@.len(),
                    index(*row, "name"@) == Json::Text(*n),
                    forall|q: int| 0 <= q < k ==> required@[q].name@ != n@,
                decreases required.len() - k,
            {
                if same_text(required[k].name.as_str(), n.as_str()) {
                    assert(required@[k as int].name@ == n@);
                    return true;
                }
                k = k + 1;
            }
            false
        },
        _ => false,
    }
}

/// The checks capability of a revision from the rows the provider reported.
pub fn checks_capability(
    provider: CiProvider,
    expected: &RunExpectation,
    policy: &QualificationPolicy,
    observed: Result<CheckRows, String>,
) -> (r: RemoteCapability)
    requires
        observed matches Ok(cr) ==> cr.identities@.len() == cr.rows@.len(),
    ensures
        r@ == checks_view(provider, *expected, *policy, observed),
{
    proof {
        reveal_strlit("remote_check_inventory");
        reveal_strlit("Observed required-name check identities: ");
        reveal_strlit(", ");
    }
    let cr = match observed {
        Err(reason) => return unverified(reason.as_str()),
        Ok(cr) => cr,
    };
    let mut result = capability(
        compare(provider, expected, policy.required_checks.as_slice(), cr.rows.as_slice()),
        "Required check names, producer identities and statuses match",
    );
    let mut chosen: Vec<String> = Vec::new();
    let mut i: usize = 0;
    let ghost ids = text_views(cr.identities@);
    assert(cr.rows@.subrange(0, 0) =~= Seq::<Json>::empty());
    while i < cr.rows.len()
        invariant
            i <= cr.rows@.len(),
            cr.identities@.len() == cr.rows@.len(),
            ids == text_views(cr.identities@),
            text_views(chosen@) == required_identities(cr.rows@.subrange(0, i as int), ids.subrange(0, i as int), policy.required_checks@),
        decreases cr.rows.len() - i,
    {
        assert(cr.rows@.subrange(0, i + 1).drop_last() =~= cr.rows@.subrange(0, i as int));
        assert(ids.subrange(0, i + 1).drop_last() =~= ids.subrange(0, i as int));
        assert(ids.subrange(0, i + 1).last() == cr.identities@[i as int]@);
        if named_like_required(&cr.rows[i], policy.required_checks.as_slice()) {
            let ghost before = chosen@;
            chosen.push(copy_string(&cr.identities[i]));
            assert(text_views(chosen@) =~= text_views(before).push(cr.identities@[i as int]@));
        }
        i = i + 1;
    }
    assert(cr.rows@.subrange(0, cr.rows@.len() as int) =~= cr.rows@);
    assert(ids.subrange(0, cr.rows@.len() as int) =~= ids);
    let sorted = sort_texts(chosen);
    let listed = join_texts(&sorted, ", ");
    let summary = joined("Observed required-name check identities: ", listed.as_str());
    let ghost before = result.evidence@;
    result.evidence.push(Evidence { kind: owned("remote_check_inventory"), summary, location: None });
    assert(evidence_views(result.evidence@) =~= evidence_views(before).push(("remote_check_inventory"@, summary@, None)));
    result
}

} // verus!
