//! Reviewed remote expectations; never inferred or approved by discovery.
use vstd::prelude::*;
use crate::manifest::{CiProvider, ManifestError};
use crate::text::{blank, contains_control, copy_string, has_control, is_blank, owned, same_text, utf8_len, utf8_len_at_most};

verus! {

/// A required check bound to its producer: a name alone cannot identify a
/// trusted producer.
#[derive(Clone, Debug)]
pub struct RequiredCheck {
    /// Exact check name.
    pub name: String,
    /// GitHub App ID or GitLab commit-status creator ID.
    pub producer_id: u64,
}

impl RequiredCheck {
    pub fn copy(&self) -> (r: RequiredCheck)
        ensures
            r == *self,
    {
        RequiredCheck { name: copy_string(&self.name), producer_id: self.producer_id }
    }
}

/// Normalized GitLab principal identity, excluding display names and row IDs.
#[derive(Clone, Copy, Debug, PartialEq, Eq, Structural)]
pub enum AccessPrincipal {
    /// Numeric GitLab access level; zero explicitly means no access.
    Role(u64),
    /// Specific user.
    User(u64),
    /// Specific group.
    Group(u64),
    /// Specific deploy key.
    DeployKey(u64),
    /// Specific custom member role.
    MemberRole(u64),
}

/// A reviewed GitLab protected-branch rule whose name may contain `*`.
#[derive(Clone, Debug)]
pub struct GitlabBranchPolicy {
    /// Exact protection rule name.
    pub name: String,
    /// Approved push principals, including explicit no-access role 0.
    pub push: Vec<AccessPrincipal>,
    /// Approved merge principals.
    pub merge: Vec<AccessPrincipal>,
}


/// Provider-specific merge-protection expectations.
#[derive(Clone, Debug)]
pub enum ProtectionPolicy {
    /// Classic GitHub protection with source-pinned required checks.
    GithubBranch {
        /// Reviewed requirement for up-to-date checks.
        strict: bool,
    },
    /// Explicitly selected active rulesets applying to trunk.
    GithubRulesets {
        /// Exact selected ruleset identities.
        ids: Vec<u64>,
        /// Reviewed requirement for up-to-date checks.
        strict: bool,
    },
    /// All matching GitLab protected-branch rules, including wildcards.
    Gitlab {
        /// Reviewed matching rules and access identities.
        rules: Vec<GitlabBranchPolicy>,
    },
}

/// Policy inputs for current-trunk CI qualification.
#[derive(Clone, Debug)]
pub struct QualificationPolicy {
    /// Existing authority containing the actual developer decision.
    pub review_reference: String,
    /// Expected run event/pipeline source.
    pub source: String,
    /// GitHub workflow identity; absent for GitLab.
    pub workflow_id: Option<u64>,
    /// Exact provider-owned job names (matrix names included).
    pub required_jobs: Vec<String>,
    /// Additional checks bound to a provider producer identity.
    pub required_checks: Vec<RequiredCheck>,
    /// Reviewed provider merge-policy expectations.
    pub protection: ProtectionPolicy,
}

/// Reviewed text: not blank, at most 1024 bytes of UTF-8, no control characters.
pub open spec fn reviewed_text(s: Seq<char>) -> bool {
    !is_blank(s) && utf8_len(s) <= 1024 && !has_control(s)
}

pub open spec fn distinct<T>(v: Seq<T>) -> bool {
    forall|i: int, j: int| 0 <= i < j < v.len() ==> v[i] != v[j]
}

/// At most 100 distinct reviewed names.
pub open spec fn unique_names(names: Seq<Seq<char>>) -> bool {
    names.len() <= 100 && (forall|i: int| 0 <= i < names.len() ==> reviewed_text(#[trigger] names[i])) && distinct(names)
}

/// An approved GitLab principal: role 0 (no access), 30, 40 or 60, or a
/// positive specific identity.
pub open spec fn principal_ok(p: AccessPrincipal) -> bool {
    match p {
        AccessPrincipal::Role(id) => id == 0 || id == 30 || id == 40 || id == 60,
        AccessPrincipal::User(id) => id > 0,
        AccessPrincipal::Group(id) => id > 0,
        AccessPrincipal::DeployKey(id) => id > 0,
        AccessPrincipal::MemberRole(id) => id > 0,
    }
}

/// One to 100 distinct approved principals.
pub open spec fn principals_ok(v: Seq<AccessPrincipal>) -> bool {
    v.len() > 0 && v.len() <= 100 && distinct(v) && forall|i: int| 0 <= i < v.len() ==> principal_ok(#[trigger] v[i])
}

pub open spec fn rule_names(rules: Seq<GitlabBranchPolicy>) -> Seq<Seq<char>> {
    rules.map_values(|r: GitlabBranchPolicy| r.name@)
}

pub open spec fn check_names(checks: Seq<RequiredCheck>) -> Seq<Seq<char>> {
    checks.map_values(|c: RequiredCheck| c.name@)
}

pub open spec fn job_names(jobs: Seq<String>) -> Seq<Seq<char>> {
    jobs.map_values(|s: String| s@)
}

/// The protection policy belongs to the provider and names its subjects well.
pub open spec fn protection_ok(p: ProtectionPolicy, provider: CiProvider) -> bool {
    match p {
        ProtectionPolicy::GithubBranch { .. } => provider == CiProvider::Github,
        ProtectionPolicy::GithubRulesets { ids, .. } => provider == CiProvider::Github && ids@.len() > 0 && ids@.len() <= 20
            && (forall|i: int| 0 <= i < ids@.len() ==> #[trigger] ids@[i] > 0) && distinct(ids@),
        ProtectionPolicy::Gitlab { rules } => provider == CiProvider::Gitlab && rules@.len() > 0 && rules@.len() <= 100
            && unique_names(rule_names(rules@))
            && forall|i: int| 0 <= i < rules@.len() ==> principals_ok((#[trigger] rules@[i]).push@) && principals_ok(rules@[i].merge@),
    }
}

/// A qualification policy that a provider can be held to.
pub open spec fn policy_ok(policy: QualificationPolicy, provider: CiProvider) -> bool {
    &&& reviewed_text(policy.review_reference@)
    &&& reviewed_text(policy.source@)
    &&& policy.required_jobs@.len() > 0
    &&& unique_names(job_names(policy.required_jobs@))
    &&& unique_names(check_names(policy.required_checks@))
    &&& forall|i: int| 0 <= i < policy.required_checks@.len() ==> (#[trigger] policy.required_checks@[i]).producer_id != 0
    &&& protection_ok(policy.protection, provider)
    &&& match provider {
        CiProvider::Github => policy.workflow_id is Some && policy.workflow_id->0 != 0 && policy.required_checks@.len() > 0,
        CiProvider::Gitlab => policy.workflow_id is None,
        CiProvider::Unconfigured => false,
    }
}

pub open spec fn policy_message() -> Seq<char> {
    "remote qualification needs a review reference, distinct required jobs/checks, valid producer/workflow identities and matching provider protection policy"@
}

fn text_ok(s: &str) -> (r: bool)
    ensures
        r == reviewed_text(s@),
{
    !blank(s) && utf8_len_at_most(s, 1024) && !contains_control(s)
}

fn names_unique(names: &Vec<String>) -> (r: bool)
    ensures
        r == unique_names(job_names(names@)),
{
    let ghost v = job_names(names@);
    if names.len() > 100 {
        return false;
    }
    let mut i: usize = 0;
    while i < names.len()
        invariant
            v == job_names(names@),
            i <= names@.len(),
            names@.len() <= 100,
            forall|k: int| 0 <= k < i ==> reviewed_text(#[trigger] v[k]),
            forall|a: int, b: int| 0 <= a < b < i ==> v[a] != v[b],
        decreases names.len() - i,
    {
        if !text_ok(names[i].as_str()) {
            assert(!reviewed_text(v[i as int]));
            return false;
        }
        let mut j: usize = 0;
        while j < i
            invariant
                v == job_names(names@),
                i < names@.len(),
                j <= i,
                forall|b: int| 0 <= b < j ==> v[b] != v[i as int],
            decreases i - j,
        {
            if same_text(names[j].as_str(), names[i].as_str()) {
                assert(v[j as int] == v[i as int]);
                return false;
            }
            j = j + 1;
        }
        i = i + 1;
    }
    true
}

fn collect_rule_names(rules: &Vec<GitlabBranchPolicy>) -> (r: Vec<String>)
    ensures
        job_names(r@) == rule_names(rules@),
{
    let mut out: Vec<String> = Vec::new();
    let mut i: usize = 0;
    while i < rules.len()
        invariant
            i <= rules@.len(),
            job_names(out@) == rule_names(rules@).subrange(0, i as int),
        decreases rules.len() - i,
    {
        let ghost before = out@;
        out.push(copy_string(&rules[i].name));
        assert(job_names(out@) =~= job_names(before).push(rules@[i as int].name@));
        assert(rule_names(rules@).subrange(0, i + 1) =~= rule_names(rules@).subrange(0, i as int).push(rules@[i as int].name@));
        i = i + 1;
    }
    assert(rule_names(rules@).subrange(0, rules@.len() as int) =~= rule_names(rules@));
    out
}

fn collect_check_names(checks: &Vec<RequiredCheck>) -> (r: Vec<String>)
    ensures
        job_names(r@) == check_names(checks@),
{
    let mut out: Vec<String> = Vec::new();
    let mut i: usize = 0;
    while i < checks.len()
        invariant
            i <= checks@.len(),
            job_names(out@) == check_names(checks@).subrange(0, i as int),
        decreases checks.len() - i,
    {
        let ghost before = out@;
        out.push(copy_string(&checks[i].name));
        assert(job_names(out@) =~= job_names(before).push(checks@[i as int].name@));
        assert(check_names(checks@).subrange(0, i + 1) =~= check_names(checks@).subrange(0, i as int).push(checks@[i as int].name@));
        i = i + 1;
    }
    assert(check_names(checks@).subrange(0, checks@.len() as int) =~= check_names(checks@));
    out
}

fn valid_principals(v: &Vec<AccessPrincipal>) -> (r: bool)
    ensures
        r == principals_ok(v@),
{
    if v.len() == 0 || v.len() > 100 {
        return false;
    }
    let mut i: usize = 0;
    while i < v.len()
        invariant
            i <= v@.len(),
            v@.len() > 0 && v@.len() <= 100,
            forall|k: int| 0 <= k < i ==> principal_ok(#[trigger] v@[k]),
            forall|a: int, b: int| 0 <= a < b < i ==> v@[a] != v@[b],
        decreases v.len() - i,
    {
        let ok = match v[i] {
            AccessPrincipal::Role(id) => id == 0 || id == 30 || id == 40 || id == 60,
            AccessPrincipal::User(id) => id > 0,
            AccessPrincipal::Group(id) => id > 0,
            AccessPrincipal::DeployKey(id) => id > 0,
            AccessPrincipal::MemberRole(id) => id > 0,
        };
        if !ok {
            return false;
        }
        let mut j: usize = 0;
        while j < i
            invariant
                i < v@.len(),
                j <= i,
                forall|b: int| 0 <= b < j ==> v@[b] != v@[i as int],
            decreases i - j,
        {
            if v[j] == v[i] {
                return false;
            }
            j = j + 1;
        }
        i = i + 1;
    }
    true
}

fn valid_ids(ids: &Vec<u64>) -> (r: bool)
    ensures
        r == (ids@.len() > 0 && ids@.len() <= 20 && (forall|i: int| 0 <= i < ids@.len() ==> #[trigger] ids@[i] > 0) && distinct(ids@)),
{
    if ids.len() == 0 || ids.len() > 20 {
        return false;
    }
    let mut i: usize = 0;
    while i < ids.len()
        invariant
            i <= ids@.len(),
            ids@.len() > 0 && ids@.len() <= 20,
            forall|k: int| 0 <= k < i ==> #[trigger] ids@[k] > 0,
            forall|a: int, b: int| 0 <= a < b < i ==> ids@[a] != ids@[b],
        decreases ids.len() - i,
    {
        if ids[i] == 0 {
            return false;
        }
        let mut j: usize = 0;
        while j < i
            invariant
                i < ids@.len(),
                j <= i,
                forall|b: int| 0 <= b < j ==> ids@[b] != ids@[i as int],
            decreases i - j,
        {
            if ids[j] == ids[i] {
                return false;
            }
            j = j + 1;
        }
        i = i + 1;
    }
    true
}

fn valid_protection(p: &ProtectionPolicy, provider: CiProvider) -> (r: bool)
    ensures
        r == protection_ok(*p, provider),
{
    match p {
        ProtectionPolicy::GithubBranch { .. } => provider == CiProvider::Github,
        ProtectionPolicy::GithubRulesets { ids, .. } => provider == CiProvider::Github && valid_ids(ids),
        ProtectionPolicy::Gitlab { rules } => {
            if !(provider == CiProvider::Gitlab && rules.len() > 0 && rules.len() <= 100) {
                return false;
            }
            let names = collect_rule_names(rules);
            if !names_unique(&names) {
                return false;
            }
            let mut i: usize = 0;
            while i < rules.len()
                invariant
                    i <= rules@.len(),
                    *p == (ProtectionPolicy::Gitlab { rules: *rules }),
                    provider == CiProvider::Gitlab,
                    rules@.len() > 0 && rules@.len() <= 100,
                    unique_names(rule_names(rules@)),
                    forall|k: int| 0 <= k < i ==> principals_ok((#[trigger] rules@[k]).push@) && principals_ok(rules@[k].merge@),
                decreases rules.len() - i,
            {
                if !valid_principals(&rules[i].push) || !valid_principals(&rules[i].merge) {
                    return false;
                }
                i = i + 1;
            }
            true
        },
    }
}

impl QualificationPolicy {
    /// Accepts a policy only if it names a review, a source, distinct valid
    /// jobs and producer-bound checks, workflow identity as the provider
    /// demands, and a protection policy of that provider.
    pub fn validate(&self, provider: CiProvider) -> (r: Result<(), ManifestError>)
        ensures
            r is Ok <==> policy_ok(*self, provider),
            r matches Err(ManifestError::Semantic(m)) ==> m@ == policy_message(),
    {
        proof { reveal_strlit("remote qualification needs a review reference, distinct required jobs/checks, valid producer/workflow identities and matching provider protection policy"); }
        let check_names_v = collect_check_names(&self.required_checks);
        let mut producers_ok = true;
        let mut i: usize = 0;
        while i < self.required_checks.len()
            invariant
                i <= self.required_checks@.len(),
                producers_ok == forall|k: int| 0 <= k < i ==> (#[trigger] self.required_checks@[k]).producer_id != 0,
            decreases self.required_checks.len() - i,
        {
            if self.required_checks[i].producer_id == 0 {
                producers_ok = false;
            }
            i = i + 1;
        }
        let provider_ok = match provider {
            CiProvider::Github => match self.workflow_id {
                Some(id) => id != 0 && self.required_checks.len() > 0,
                None => false,
            },
            CiProvider::Gitlab => self.workflow_id.is_none(),
            CiProvider::Unconfigured => false,
        };
        if !text_ok(self.review_reference.as_str())
            || !text_ok(self.source.as_str())
            || self.required_jobs.len() == 0
            || !names_unique(&self.required_jobs)
            || !names_unique(&check_names_v)
            || !producers_ok
            || !valid_protection(&self.protection, provider)
            || !provider_ok
        {
            return Err(ManifestError::Semantic(owned("remote qualification needs a review reference, distinct required jobs/checks, valid producer/workflow identities and matching provider protection policy")));
        }
        Ok(())
    }
}

} // verus!
