//! Explicit run observations, separate from branch-latest audits and core gates.
use vstd::prelude::*;
use crate::json::{Json, index, member};
use crate::manifest::CiProvider;
use crate::outcome::Outcome;
use crate::remote::checks::failure_verdict;
use crate::text::{
    chars_of, contains_control, copy_string, eq_ignore_ascii_case, has_control, joined, owned,
    same_ignoring_ascii_case, same_text, utf8_len, utf8_len_at_most,
};

verus! {

/// Caller-selected run identity, not an inferred qualification policy.
#[derive(Debug)]
pub struct RunExpectation {
    /// Full expected Git commit ID.
    pub revision: String,
    /// GitHub run ID or GitLab pipeline ID.
    pub run_id: u64,
    /// Expected branch/ref as returned by the provider.
    pub reference: String,
    /// Expected GitHub event or GitLab pipeline source.
    pub source: String,
    /// Required GitHub numeric workflow ID; absent for GitLab.
    pub workflow_id: Option<u64>,
}

impl RunExpectation {
    pub fn copy(&self) -> (r: RunExpectation)
        ensures
            r == *self,
    {
        RunExpectation {
            revision: copy_string(&self.revision),
            run_id: self.run_id,
            reference: copy_string(&self.reference),
            source: copy_string(&self.source),
            workflow_id: self.workflow_id,
        }
    }
}

/// Provider-returned run metadata.
#[derive(Debug)]
pub struct RunObservation {
    /// Observed revision, run, ref, event and workflow.
    pub identity: RunExpectation,
    /// Provider lifecycle status.
    pub status: String,
    /// Terminal conclusion, when exposed.
    pub conclusion: Option<String>,
    /// GitHub's current attempt, not proof of complete retry history.
    pub attempt: Option<u64>,
}

/// A provider repository: namespace (possibly nested for GitLab) and name.
#[derive(Debug)]
pub struct Repository {
    pub provider: CiProvider,
    pub namespace: String,
    pub name: String,
}

impl Repository {
    pub open spec fn spec_slug(&self) -> Seq<char> {
        self.namespace@ + seq!['/'] + self.name@
    }

    pub fn copy(&self) -> (r: Repository)
        ensures
            r == *self,
    {
        Repository { provider: self.provider, namespace: copy_string(&self.namespace), name: copy_string(&self.name) }
    }

    /// `namespace/name`.
    pub fn slug(&self) -> (r: String)
        ensures
            r@ == self.spec_slug(),
    {
        let mut s = copy_string(&self.namespace);
        s.append("/");
        s.append(self.name.as_str());
        proof {
            reveal_strlit("/");
        }
        s
    }
}

/// Text accepted as a provider identity field: nonempty, at most 1024 bytes
/// of UTF-8 and free of control characters.
pub open spec fn provider_text(s: Seq<char>) -> bool {
    s.len() > 0 && utf8_len(s) <= 1024 && !has_control(s)
}

pub open spec fn omitted_message(key: Seq<char>) -> Seq<char> {
    "Provider omitted or invalidated "@ + key
}

/// `string(value, key)`: a valid text member, or the omission diagnostic.
pub open spec fn spec_string(v: Json, key: Seq<char>) -> Result<Seq<char>, Seq<char>> {
    match member(v, key) {
        Some(Json::Text(s)) if provider_text(s@) => Ok(s@),
        _ => Err(omitted_message(key)),
    }
}

/// `number(value, key)`: a positive integer member, or the omission diagnostic.
pub open spec fn spec_number(v: Json, key: Seq<char>) -> Result<u64, Seq<char>> {
    match member(v, key) {
        Some(Json::UInt(n)) if n > 0 => Ok(n),
        _ => Err(omitted_message(key)),
    }
}

pub open spec fn text_result(r: Result<String, String>) -> Result<Seq<char>, Seq<char>> {
    match r {
        Ok(s) => Ok(s@),
        Err(e) => Err(e@),
    }
}

pub open spec fn number_result(r: Result<u64, String>) -> Result<u64, Seq<char>> {
    match r {
        Ok(n) => Ok(n),
        Err(e) => Err(e@),
    }
}

fn omitted(key: &str) -> (r: String)
    ensures
        r@ == omitted_message(key@),
{
    let r = joined("Provider omitted or invalidated ", key);
    proof {
        reveal_strlit("Provider omitted or invalidated ");
    }
    r
}

/// Whether text is acceptable as a provider identity field.
pub fn is_provider_text(s: &str) -> (r: bool)
    ensures
        r == provider_text(s@),
{
    !s.is_empty() && utf8_len_at_most(s, 1024) && !contains_control(s)
}

/// A nonempty, bounded, control-free text member.
pub fn string(value: &Json, key: &str) -> (r: Result<String, String>)
    ensures
        text_result(r) == spec_string(*value, key@),
{
    match value.get(key) {
        Some(Json::Text(s)) => {
            if is_provider_text(s.as_str()) {
                Ok(copy_string(s))
            } else {
                Err(omitted(key))
            }
        },
        _ => Err(omitted(key)),
    }
}

/// A positive integer member.
pub fn number(value: &Json, key: &str) -> (r: Result<u64, String>)
    ensures
        number_result(r) == spec_number(*value, key@),
{
    match value.get(key) {
        Some(Json::UInt(n)) => {
            if *n > 0 {
                Ok(*n)
            } else {
                Err(omitted(key))
            }
        },
        _ => Err(omitted(key)),
    }
}

/// `value[key]` as a borrowed value, with `null` for an absent member.
pub fn nested<'a>(value: &'a Json, key: &str, null: &'a Json) -> (r: &'a Json)
    requires
        *null is Null,
    ensures
        *r == index(*value, key@),
{
    match value.get(key) {
        Some(x) => x,
        None => null,
    }
}


/// Why a run observation could not be attempted.
#[derive(Debug)]
pub enum RemoteError {
    /// The project contract declares no remote repository.
    MissingRemote,
    /// The remote repository is hosted by another provider than the declared one.
    ProviderMismatch { declared: CiProvider, detected: CiProvider },
    /// The repository or the run expectation is not acceptable.
    InvalidExpectation(String),
}

/// A snapshot of one explicitly selected remote run, not full qualification.
#[derive(Debug)]
pub struct RunVerification {
    /// Output contract version.
    pub schema: u32,
    /// Validated provider repository slug.
    pub repository: String,
    /// Provider of the repository.
    pub provider: CiProvider,
    /// Caller expectations retained even if the provider is unavailable.
    pub expected: RunExpectation,
    /// Observed identity if a complete response was available.
    pub observed: Option<RunObservation>,
    /// Result of identity and run-status comparison only.
    pub outcome: Outcome,
    /// Full project qualification is outside this observation.
    pub qualification: Outcome,
    /// Scope and unavailable or mismatched evidence.
    pub diagnostics: Vec<String>,
    /// Opt-in required-job snapshot.
    pub jobs: Option<crate::remote::jobs::JobVerification>,
}

pub open spec fn slug_char(c: char) -> bool {
    ('a' <= c && c <= 'z') || ('A' <= c && c <= 'Z') || ('0' <= c && c <= '9') || c == '-' || c == '_' || c == '.'
}

/// A path segment of a repository slug: nonempty, not `.` or `..`, and made
/// of ASCII letters, digits, `-`, `_` and `.`.
pub open spec fn segment_ok(p: Seq<char>) -> bool {
    p.len() > 0 && p != seq!['.'] && p != seq!['.', '.'] && forall|i: int| 0 <= i < p.len() ==> slug_char(#[trigger] p[i])
}

/// `s.split('/')`.
pub open spec fn segments(s: Seq<char>) -> Seq<Seq<char>>
    decreases s.len(),
{
    if s.len() == 0 {
        seq![Seq::empty()]
    } else if s.last() == '/' {
        segments(s.drop_last()).push(Seq::empty())
    } else {
        let p = segments(s.drop_last());
        p.update(p.len() - 1, p.last().push(s.last()))
    }
}

pub open spec fn slug_ok(s: Seq<char>) -> bool {
    forall|k: int| 0 <= k < segments(s).len() ==> segment_ok(#[trigger] segments(s)[k])
}

pub open spec fn hex_char(c: char) -> bool {
    ('0' <= c && c <= '9') || ('a' <= c && c <= 'f') || ('A' <= c && c <= 'F')
}

/// A full commit ID: 40 or 64 hexadecimal digits.
pub open spec fn full_commit(s: Seq<char>) -> bool {
    (s.len() == 40 || s.len() == 64) && forall|i: int| 0 <= i < s.len() ==> hex_char(#[trigger] s[i])
}

/// Whether a repository and the parts of a run expectation may be observed at all.
pub open spec fn expectation_parts_ok(
    repository: Repository,
    revision: Seq<char>,
    run_id: u64,
    reference: Seq<char>,
    source: Seq<char>,
    workflow_id: Option<u64>,
) -> bool {
    &&& slug_ok(repository.spec_slug())
    &&& !(repository.provider == CiProvider::Github && repository.namespace@.contains('/'))
    &&& full_commit(revision)
    &&& run_id != 0
    &&& provider_text(reference)
    &&& provider_text(source)
    &&& match repository.provider {
        CiProvider::Github => workflow_id is Some && workflow_id->0 != 0,
        _ => workflow_id is None,
    }
}

/// Whether a repository and run expectation may be observed at all.
pub open spec fn expectation_ok(repository: Repository, expected: RunExpectation) -> bool {
    expectation_parts_ok(repository, expected.revision@, expected.run_id, expected.reference@, expected.source@, expected.workflow_id)
}

pub open spec fn invalid_expectation_message() -> Seq<char> {
    "require a supported repository, full commit ID, positive run ID, ref and source; GitHub additionally requires a positive workflow ID, GitLab forbids it"@
}

proof fn lemma_segments_nonempty(s: Seq<char>)
    ensures
        segments(s).len() >= 1,
    decreases s.len(),
{
    if s.len() > 0 {
        lemma_segments_nonempty(s.drop_last());
    }
}

fn segment_valid(p: &Vec<char>) -> (r: bool)
    ensures
        r == segment_ok(p@),
{
    if p.len() == 0 {
        return false;
    }
    if p.len() == 1 && p[0] == '.' {
        assert(p@ =~= seq!['.']);
        return false;
    }
    if p.len() == 2 && p[0] == '.' && p[1] == '.' {
        assert(p@ =~= seq!['.', '.']);
        return false;
    }
    let mut i: usize = 0;
    while i < p.len()
        invariant
            i <= p@.len(),
            p@.len() > 0,
            p@ != seq!['.'],
            p@ != seq!['.', '.'],
            forall|j: int| 0 <= j < i ==> slug_char(#[trigger] p@[j]),
        decreases p.len() - i,
    {
        let c = p[i];
        if !(('a' <= c && c <= 'z') || ('A' <= c && c <= 'Z') || ('0' <= c && c <= '9') || c == '-' || c == '_' || c == '.') {
            return false;
        }
        i = i + 1;
    }
    true
}

/// Whether every `/`-separated segment of a slug is acceptable.
fn valid_slug(s: &str) -> (r: bool)
    ensures
        r == slug_ok(s@),
{
    let v = chars_of(s);
    let mut cur: Vec<char> = Vec::new();
    let mut i: usize = 0;
    proof {
        assert(v@.subrange(0, 0) =~= Seq::<char>::empty());
        assert(cur@ =~= Seq::<char>::empty());
    }
    while i < v.len()
        invariant
            v@ == s@,
            i <= v@.len(),
            segments(v@.subrange(0, i as int)).len() >= 1,
            segments(v@.subrange(0, i as int)).last() == cur@,
            forall|k: int| 0 <= k < segments(v@.subrange(0, i as int)).len() - 1
                ==> segment_ok(#[trigger] segments(v@.subrange(0, i as int))[k]),
        decreases v.len() - i,
    {
        let ghost pre = v@.subrange(0, i as int);
        let ghost next = v@.subrange(0, i + 1);
        assert(next.drop_last() =~= pre);
        assert(next.last() == v@[i as int]);
        if v[i] == '/' {
            if !segment_valid(&cur) {
                proof {
                    assert(segments(next)[segments(pre).len() - 1] == cur@);
                    lemma_segments_prefix_fails(v@, i as int + 1, segments(pre).len() - 1);
                }
                return false;
            }
            cur = Vec::new();
            proof {
                assert(cur@ =~= Seq::<char>::empty());
                assert forall|k: int| 0 <= k < segments(next).len() - 1 implies segment_ok(#[trigger] segments(next)[k]) by {
                    assert(segments(next)[k] == segments(pre)[k] || k == segments(pre).len() - 1);
                }
            }
        } else {
            let ghost before = cur@;
            cur.push(v[i]);
            proof {
                assert(cur@ == before.push(v@[i as int]));
                assert forall|k: int| 0 <= k < segments(next).len() - 1 implies segment_ok(#[trigger] segments(next)[k]) by {
                    assert(segments(next)[k] == segments(pre)[k]);
                }
            }
        }
        i = i + 1;
    }
    assert(v@.subrange(0, v@.len() as int) =~= v@);
    let ok = segment_valid(&cur);
    proof {
        let segs = segments(s@);
        if ok {
            assert forall|k: int| 0 <= k < segs.len() implies segment_ok(#[trigger] segs[k]) by {
                if k == segs.len() - 1 {
                    assert(segs[k] == cur@);
                }
            }
        } else {
            assert(!segment_ok(segs[segs.len() - 1]));
        }
    }
    ok
}

/// A segment completed within a prefix is a segment of the whole text.
proof fn lemma_segments_prefix_fails(s: Seq<char>, n: int, k: int)
    requires
        0 <= n <= s.len(),
        0 <= k < segments(s.subrange(0, n)).len() - 1,
        !segment_ok(segments(s.subrange(0, n))[k]),
    ensures
        !slug_ok(s),
    decreases s.len() - n,
{
    lemma_segments_nonempty(s.subrange(0, n));
    if n < s.len() {
        let next = s.subrange(0, n + 1);
        assert(next.drop_last() =~= s.subrange(0, n));
        lemma_segments_nonempty(s.subrange(0, n));
        assert(segments(next)[k] == segments(s.subrange(0, n))[k]);
        lemma_segments_prefix_fails(s, n + 1, k);
    } else {
        assert(s.subrange(0, n) =~= s);
        assert(!segment_ok(segments(s)[k]));
    }
}

fn full_commit_id(s: &str) -> (r: bool)
    ensures
        r == full_commit(s@),
{
    let v = chars_of(s);
    if v.len() != 40 && v.len() != 64 {
        return false;
    }
    let mut i: usize = 0;
    while i < v.len()
        invariant
            v@ == s@,
            i <= v@.len(),
            forall|j: int| 0 <= j < i ==> hex_char(#[trigger] v@[j]),
        decreases v.len() - i,
    {
        let c = v[i];
        if !(('0' <= c && c <= '9') || ('a' <= c && c <= 'f') || ('A' <= c && c <= 'F')) {
            return false;
        }
        i = i + 1;
    }
    true
}

fn has_slash(s: &str) -> (r: bool)
    ensures
        r == s@.contains('/'),
{
    let v = chars_of(s);
    let mut i: usize = 0;
    while i < v.len()
        invariant
            v@ == s@,
            i <= v@.len(),
            forall|j: int| 0 <= j < i ==> v@[j] != '/',
        decreases v.len() - i,
    {
        if v[i] == '/' {
            assert(v@[i as int] == '/');
            return true;
        }
        i = i + 1;
    }
    false
}

/// Rejects, before any request, a repository or expectation that cannot name
/// one run: the slug must be made of safe segments (a GitHub namespace of one
/// segment), the revision a full commit ID, the run ID positive, ref and
/// source safe text, and the workflow ID positive for GitHub and absent
/// otherwise.
pub fn validate(repository: &Repository, expected: &RunExpectation) -> (r: Result<(), RemoteError>)
    ensures
        r is Ok <==> expectation_ok(*repository, *expected),
        r matches Err(RemoteError::InvalidExpectation(m)) ==> m@ == invalid_expectation_message(),
        r is Err ==> r->Err_0 is InvalidExpectation,
{
    let slug = repository.slug();
    let github = match repository.provider {
        CiProvider::Github => true,
        _ => false,
    };
    let workflow_ok = match repository.provider {
        CiProvider::Github => match expected.workflow_id {
            Some(id) => id != 0,
            None => false,
        },
        _ => expected.workflow_id.is_none(),
    };
    if !valid_slug(slug.as_str())
        || (github && has_slash(repository.namespace.as_str()))
        || !full_commit_id(expected.revision.as_str())
        || expected.run_id == 0
        || !is_provider_text(expected.reference.as_str())
        || !is_provider_text(expected.source.as_str())
        || !workflow_ok
    {
        proof { reveal_strlit("require a supported repository, full commit ID, positive run ID, ref and source; GitHub additionally requires a positive workflow ID, GitLab forbids it"); }
        return Err(RemoteError::InvalidExpectation(owned("require a supported repository, full commit ID, positive run ID, ref and source; GitHub additionally requires a positive workflow ID, GitLab forbids it")));
    }
    Ok(())
}


pub open spec fn repository_identity_message() -> Seq<char> {
    "Provider repository identity differs from the requested repository"@
}

pub open spec fn project_identity_message() -> Seq<char> {
    "Pipeline project identity differs from the requested repository"@
}

/// What a run observation records, as plain values.
pub struct ObservedRun {
    pub revision: Seq<char>,
    pub run_id: u64,
    pub reference: Seq<char>,
    pub source: Seq<char>,
    pub workflow_id: Option<u64>,
    pub status: Seq<char>,
    pub conclusion: Option<Seq<char>>,
    pub attempt: Option<u64>,
}

pub open spec fn opt_text(o: Option<String>) -> Option<Seq<char>> {
    match o {
        Some(s) => Some(s@),
        None => None,
    }
}

impl View for RunObservation {
    type V = ObservedRun;

    open spec fn view(&self) -> ObservedRun {
        ObservedRun {
            revision: self.identity.revision@,
            run_id: self.identity.run_id,
            reference: self.identity.reference@,
            source: self.identity.source@,
            workflow_id: self.identity.workflow_id,
            status: self.status@,
            conclusion: opt_text(self.conclusion),
            attempt: self.attempt,
        }
    }
}

pub open spec fn observation_view(r: Result<RunObservation, String>) -> Result<ObservedRun, Seq<char>> {
    match r {
        Ok(o) => Ok(o@),
        Err(e) => Err(e@),
    }
}

/// A GitHub conclusion: absent when `null`, else valid text.
pub open spec fn spec_conclusion(value: Json) -> Result<Option<Seq<char>>, Seq<char>> {
    if index(value, "conclusion"@) is Null {
        Ok(None)
    } else {
        match spec_string(value, "conclusion"@) {
            Err(e) => Err(e),
            Ok(c) => Ok(Some(c)),
        }
    }
}

/// A GitHub workflow run read from the provider's response; the repository
/// must be the requested one and every field present, read in order.
pub open spec fn github_observation_spec(value: Json, slug: Seq<char>) -> Result<ObservedRun, Seq<char>> {
    match spec_string(index(value, "repository"@), "full_name"@) {
        Err(e) => Err(e),
        Ok(name) => if name != slug {
            Err(repository_identity_message())
        } else {
            match spec_string(value, "head_sha"@) {
                Err(e) => Err(e),
                Ok(revision) => match spec_number(value, "id"@) {
                    Err(e) => Err(e),
                    Ok(run_id) => match spec_string(value, "head_branch"@) {
                        Err(e) => Err(e),
                        Ok(reference) => match spec_string(value, "event"@) {
                            Err(e) => Err(e),
                            Ok(source) => match spec_number(value, "workflow_id"@) {
                                Err(e) => Err(e),
                                Ok(workflow) => match spec_string(value, "status"@) {
                                    Err(e) => Err(e),
                                    Ok(status) => match spec_conclusion(value) {
                                        Err(e) => Err(e),
                                        Ok(conclusion) => match spec_number(value, "run_attempt"@) {
                                            Err(e) => Err(e),
                                            Ok(attempt) => Ok(ObservedRun {
                                                revision,
                                                run_id,
                                                reference,
                                                source,
                                                workflow_id: Some(workflow),
                                                status,
                                                conclusion,
                                                attempt: Some(attempt),
                                            }),
                                        },
                                    },
                                },
                            },
                        },
                    },
                },
            }
        },
    }
}

/// A GitLab pipeline read from the provider's response; it must belong to the
/// requested project.
pub open spec fn gitlab_observation_spec(value: Json, project_id: u64) -> Result<ObservedRun, Seq<char>> {
    match spec_number(value, "project_id"@) {
        Err(e) => Err(e),
        Ok(p) => if p != project_id {
            Err(project_identity_message())
        } else {
            match spec_string(value, "sha"@) {
                Err(e) => Err(e),
                Ok(revision) => match spec_number(value, "id"@) {
                    Err(e) => Err(e),
                    Ok(run_id) => match spec_string(value, "ref"@) {
                        Err(e) => Err(e),
                        Ok(reference) => match spec_string(value, "source"@) {
                            Err(e) => Err(e),
                            Ok(source) => match spec_string(value, "status"@) {
                                Err(e) => Err(e),
                                Ok(status) => Ok(ObservedRun {
                                    revision,
                                    run_id,
                                    reference,
                                    source,
                                    workflow_id: None,
                                    status,
                                    conclusion: None,
                                    attempt: None,
                                }),
                            },
                        },
                    },
                },
            }
        },
    }
}

/// Reads a GitHub workflow run response for the repository `slug`.
pub fn github_observation(value: &Json, slug: &str) -> (r: Result<RunObservation, String>)
    ensures
        observation_view(r) == github_observation_spec(*value, slug@),
{
    proof {
        reveal_strlit("repository");
        reveal_strlit("full_name");
        reveal_strlit("head_sha");
        reveal_strlit("id");
        reveal_strlit("head_branch");
        reveal_strlit("event");
        reveal_strlit("workflow_id");
        reveal_strlit("status");
        reveal_strlit("conclusion");
        reveal_strlit("run_attempt");
        reveal_strlit("Provider repository identity differs from the requested repository");
    }
    let null = Json::Null;
    let name = match string(nested(value, "repository", &null), "full_name") {
        Ok(n) => n,
        Err(e) => return Err(e),
    };
    if !same_text(name.as_str(), slug) {
        return Err(owned("Provider repository identity differs from the requested repository"));
    }
    let revision = match string(value, "head_sha") { Ok(x) => x, Err(e) => return Err(e) };
    let run_id = match number(value, "id") { Ok(x) => x, Err(e) => return Err(e) };
    let reference = match string(value, "head_branch") { Ok(x) => x, Err(e) => return Err(e) };
    let source = match string(value, "event") { Ok(x) => x, Err(e) => return Err(e) };
    let workflow = match number(value, "workflow_id") { Ok(x) => x, Err(e) => return Err(e) };
    let status = match string(value, "status") { Ok(x) => x, Err(e) => return Err(e) };
    let conclusion = if nested(value, "conclusion", &null).is_null() {
        None
    } else {
        match string(value, "conclusion") {
            Ok(x) => Some(x),
            Err(e) => return Err(e),
        }
    };
    let attempt = match number(value, "run_attempt") { Ok(x) => x, Err(e) => return Err(e) };
    Ok(RunObservation {
        identity: RunExpectation { revision, run_id, reference, source, workflow_id: Some(workflow) },
        status,
        conclusion,
        attempt: Some(attempt),
    })
}

/// Reads a GitLab pipeline response for the project `project_id`.
pub fn gitlab_observation(value: &Json, project_id: u64) -> (r: Result<RunObservation, String>)
    ensures
        observation_view(r) == gitlab_observation_spec(*value, project_id),
{
    proof {
        reveal_strlit("project_id");
        reveal_strlit("sha");
        reveal_strlit("id");
        reveal_strlit("ref");
        reveal_strlit("source");
        reveal_strlit("status");
        reveal_strlit("Pipeline project identity differs from the requested repository");
    }
    let p = match number(value, "project_id") { Ok(x) => x, Err(e) => return Err(e) };
    if p != project_id {
        return Err(owned("Pipeline project identity differs from the requested repository"));
    }
    let revision = match string(value, "sha") { Ok(x) => x, Err(e) => return Err(e) };
    let run_id = match number(value, "id") { Ok(x) => x, Err(e) => return Err(e) };
    let reference = match string(value, "ref") { Ok(x) => x, Err(e) => return Err(e) };
    let source = match string(value, "source") { Ok(x) => x, Err(e) => return Err(e) };
    let status = match string(value, "status") { Ok(x) => x, Err(e) => return Err(e) };
    Ok(RunObservation {
        identity: RunExpectation { revision, run_id, reference, source, workflow_id: None },
        status,
        conclusion: None,
        attempt: None,
    })
}

/// How a provider's verdict counts: success passes; failure, failed,
/// cancelled, canceled, timed_out and startup_failure fail; anything else
/// (pending, skipped, absent) stays unverified.
pub open spec fn verdict_outcome(v: Option<Seq<char>>) -> Outcome {
    match v {
        Some(s) => if s == "success"@ {
            Outcome::Passed
        } else if failure_verdict(s) {
            Outcome::Failed
        } else {
            Outcome::Unverified
        },
        None => Outcome::Unverified,
    }
}

pub fn outcome_of_verdict(v: Option<&str>) -> (r: Outcome)
    ensures
        r == verdict_outcome(match v { Some(s) => Some(s@), None => None }),
{
    proof {
        reveal_strlit("success");
        reveal_strlit("failure");
        reveal_strlit("failed");
        reveal_strlit("cancelled");
        reveal_strlit("canceled");
        reveal_strlit("timed_out");
        reveal_strlit("startup_failure");
    }
    match v {
        Some(s) => if same_text(s, "success") {
            Outcome::Passed
        } else if same_text(s, "failure") || same_text(s, "failed") || same_text(s, "cancelled")
            || same_text(s, "canceled") || same_text(s, "timed_out") || same_text(s, "startup_failure") {
            Outcome::Failed
        } else {
            Outcome::Unverified
        },
        None => Outcome::Unverified,
    }
}

pub open spec fn run_scope_message() -> Seq<char> {
    "Run identity/status observation only. Required jobs, trusted check sources, merge protection, latest attempt freshness and artifact qualification are not established. No gate or provider setting was changed."@
}

pub open spec fn identity_mismatch_message() -> Seq<char> {
    "Observed run identity does not match the requested revision/run/ref/source/workflow"@
}

/// The observed run is the requested one.
pub open spec fn identity_matches(observed: ObservedRun, expected: RunExpectation) -> bool {
    same_ignoring_ascii_case(observed.revision, expected.revision@) && observed.run_id == expected.run_id
        && observed.reference == expected.reference@ && observed.source == expected.source@
        && observed.workflow_id == expected.workflow_id
}

/// The provider's verdict on a run: GitHub's conclusion once completed,
/// GitLab's status.
pub open spec fn run_verdict(provider: CiProvider, run: ObservedRun) -> Option<Seq<char>> {
    if provider == CiProvider::Github {
        if run.status == "completed"@ {
            run.conclusion
        } else {
            None
        }
    } else {
        Some(run.status)
    }
}

pub open spec fn texts(v: Seq<String>) -> Seq<Seq<char>> {
    v.map_values(|s: String| s@)
}

/// Compares a run observation, or the reason it is unavailable, with the
/// expectation: a mismatching identity fails, a matching one takes the
/// provider's verdict, and an unavailable one stays unverified.
pub fn reconcile(repository: &Repository, expected: &RunExpectation, observed: Result<RunObservation, String>) -> (r: RunVerification)
    ensures
        r.schema == 1,
        r.repository@ == repository.spec_slug(),
        r.provider == repository.provider,
        r.expected == *expected,
        r.qualification == Outcome::Unverified,
        r.jobs is None,
        match observed {
            Err(reason) => {
                &&& r.observed is None
                &&& r.outcome == Outcome::Unverified
                &&& texts(r.diagnostics@) == seq![run_scope_message(), reason@]
            },
            Ok(run) => {
                &&& r.observed == Some(run)
                &&& if identity_matches(run@, *expected) {
                    &&& r.outcome == verdict_outcome(run_verdict(repository.provider, run@))
                    &&& texts(r.diagnostics@) == seq![run_scope_message()]
                } else {
                    &&& r.outcome == Outcome::Failed
                    &&& texts(r.diagnostics@) == seq![run_scope_message(), identity_mismatch_message()]
                }
            },
        },
{
    proof {
        reveal_strlit("Run identity/status observation only. Required jobs, trusted check sources, merge protection, latest attempt freshness and artifact qualification are not established. No gate or provider setting was changed.");
        reveal_strlit("Observed run identity does not match the requested revision/run/ref/source/workflow");
        reveal_strlit("completed");
    }
    let mut diagnostics: Vec<String> = Vec::new();
    diagnostics.push(owned("Run identity/status observation only. Required jobs, trusted check sources, merge protection, latest attempt freshness and artifact qualification are not established. No gate or provider setting was changed."));
    let mut outcome = Outcome::Unverified;
    let mut kept: Option<RunObservation> = None;
    match observed {
        Err(reason) => {
            diagnostics.push(reason);
        },
        Ok(run) => {
            let matches = eq_ignore_ascii_case(run.identity.revision.as_str(), expected.revision.as_str())
                && run.identity.run_id == expected.run_id
                && same_text(run.identity.reference.as_str(), expected.reference.as_str())
                && same_text(run.identity.source.as_str(), expected.source.as_str())
                && run.identity.workflow_id == expected.workflow_id;
            if matches {
                let verdict: Option<&str> = match repository.provider {
                    CiProvider::Github => if same_text(run.status.as_str(), "completed") {
                        match &run.conclusion {
                            Some(c) => Some(c.as_str()),
                            None => None,
                        }
                    } else {
                        None
                    },
                    _ => Some(run.status.as_str()),
                };
                outcome = outcome_of_verdict(verdict);
            } else {
                diagnostics.push(owned("Observed run identity does not match the requested revision/run/ref/source/workflow"));
                outcome = Outcome::Failed;
            }
            kept = Some(run);
        },
    }
    let r = RunVerification {
        schema: 1,
        repository: repository.slug(),
        provider: repository.provider,
        expected: expected.copy(),
        observed: kept,
        outcome,
        qualification: Outcome::Unverified,
        diagnostics,
        jobs: None,
    };
    assert(texts(r.diagnostics@) =~= match observed {
        Err(reason) => seq![run_scope_message(), reason@],
        Ok(run) => if identity_matches(run@, *expected) { seq![run_scope_message()] } else { seq![run_scope_message(), identity_mismatch_message()] },
    });
    r
}

} // verus!
