//! Bounded, read-only observations of explicitly requested provider-owned jobs.
use vstd::prelude::*;
use crate::json::{Json, index};
use crate::manifest::CiProvider;
use crate::outcome::Outcome;
use crate::remote::run::{
    ObservedRun, RemoteError, RunExpectation, RunObservation, RunVerification, nested, number,
    opt_text, outcome_of_verdict, spec_number, spec_string, string, texts, verdict_outcome,
};
use crate::text::{
    blank, contains_control, copy_string, debug_quoted, debug_text, eq_ignore_ascii_case,
    has_control, is_blank, joined, owned, same_ignoring_ascii_case, same_text, utf8_len,
    utf8_len_at_most,
};

verus! {

/// Minimal job evidence, excluding logs, actors, runner details and secrets.
#[derive(Debug)]
pub struct JobObservation {
    /// Provider job identity.
    pub id: u64,
    /// Exact provider-returned name (including any matrix suffix).
    pub name: String,
    /// Provider lifecycle status.
    pub status: String,
    /// GitHub conclusion; absent for GitLab.
    pub conclusion: Option<String>,
}

/// Required-job snapshot, not a declaration of sufficient project policy.
#[derive(Debug)]
pub struct JobVerification {
    /// Caller-selected names, never inferred from existing jobs.
    pub required: Vec<String>,
    /// Current matching jobs; duplicate names remain visible and unverified.
    pub current: Vec<JobObservation>,
    /// GitLab's superseded matching jobs; never used to satisfy requirements.
    pub prior: Vec<JobObservation>,
    /// Whether all requested names uniquely identify successful current jobs.
    pub outcome: Outcome,
    /// Explicit incompleteness, retry and scope information.
    pub diagnostics: Vec<String>,
}

/// What a job observation records, as plain values.
pub struct ObservedJob {
    pub id: u64,
    pub name: Seq<char>,
    pub status: Seq<char>,
    pub conclusion: Option<Seq<char>>,
}

impl View for JobObservation {
    type V = ObservedJob;

    open spec fn view(&self) -> ObservedJob {
        ObservedJob { id: self.id, name: self.name@, status: self.status@, conclusion: opt_text(self.conclusion) }
    }
}

pub open spec fn job_views(v: Seq<JobObservation>) -> Seq<ObservedJob> {
    v.map_values(|j: JobObservation| j@)
}

impl JobObservation {
    pub fn copy(&self) -> (r: JobObservation)
        ensures
            r == *self,
    {
        JobObservation {
            id: self.id,
            name: copy_string(&self.name),
            status: copy_string(&self.status),
            conclusion: match &self.conclusion {
                Some(c) => Some(copy_string(c)),
                None => None,
            },
        }
    }
}

pub open spec fn required_names_message() -> Seq<char> {
    "require at most 100 distinct nonempty job names without control characters"@
}

/// A requested job name: not blank, at most 1024 bytes, no control characters.
pub open spec fn job_name_ok(name: Seq<char>) -> bool {
    !is_blank(name) && utf8_len(name) <= 1024 && !has_control(name)
}

/// At most 100 acceptable names, none repeated.
pub open spec fn required_ok(required: Seq<Seq<char>>) -> bool {
    &&& required.len() <= 100
    &&& forall|i: int| 0 <= i < required.len() ==> job_name_ok(#[trigger] required[i])
    &&& forall|i: int, j: int| 0 <= i < j < required.len() ==> required[i] != required[j]
}

/// Rejects, before any request, a job-name list that cannot be required.
pub fn validate_required(required: &[String]) -> (r: Result<(), RemoteError>)
    ensures
        r is Ok <==> required_ok(texts(required@)),
        r matches Err(RemoteError::InvalidExpectation(m)) ==> m@ == required_names_message(),
        r is Err ==> r->Err_0 is InvalidExpectation,
{
    proof { reveal_strlit("require at most 100 distinct nonempty job names without control characters"); }
    let ghost names = texts(required@);
    if required.len() > 100 {
        return Err(RemoteError::InvalidExpectation(owned("require at most 100 distinct nonempty job names without control characters")));
    }
    let mut i: usize = 0;
    while i < required.len()
        invariant
            names == texts(required@),
            i <= required@.len(),
            forall|k: int| 0 <= k < i ==> job_name_ok(#[trigger] names[k]),
            forall|a: int, b: int| 0 <= a < b < i ==> names[a] != names[b],
        decreases required.len() - i,
    {
        let name = required[i].as_str();
        let mut duplicate = false;
        let mut j: usize = 0;
        while j < i
            invariant
                names == texts(required@),
                i < required@.len(),
                j <= i,
                name@ == names[i as int],
                !duplicate ==> forall|b: int| 0 <= b < j ==> names[b] != names[i as int],
                duplicate ==> exists|b: int| 0 <= b < i && names[b] == names[i as int],
            decreases i - j,
        {
            if same_text(required[j].as_str(), name) {
                assert(names[j as int] == required@[j as int]@);
                duplicate = true;
            }
            j = j + 1;
        }
        if blank(name) || !utf8_len_at_most(name, 1024) || contains_control(name) || duplicate {
            proof {
                if duplicate {
                    let b = choose|b: int| 0 <= b < i && names[b] == names[i as int];
                    assert(names[b] == names[i as int]);
                } else {
                    assert(!job_name_ok(names[i as int]));
                }
            }
            return Err(RemoteError::InvalidExpectation(owned("require at most 100 distinct nonempty job names without control characters")));
        }
        i = i + 1;
    }
    Ok(())
}

/// The outcome of one job: GitHub jobs pass or fail only once completed, by
/// their conclusion; GitLab jobs by their status.
pub open spec fn job_outcome_spec(provider: CiProvider, job: ObservedJob) -> Outcome {
    if provider == CiProvider::Github {
        if job.status != "completed"@ {
            Outcome::Unverified
        } else {
            verdict_outcome(job.conclusion)
        }
    } else {
        verdict_outcome(Some(job.status))
    }
}

/// The outcome of one job.
pub fn job_outcome(provider: CiProvider, job: &JobObservation) -> (r: Outcome)
    ensures
        r == job_outcome_spec(provider, job@),
{
    proof { reveal_strlit("completed"); }
    match provider {
        CiProvider::Github => {
            if !same_text(job.status.as_str(), "completed") {
                return Outcome::Unverified;
            }
            match &job.conclusion {
                Some(c) => outcome_of_verdict(Some(c.as_str())),
                None => outcome_of_verdict(None),
            }
        },
        _ => outcome_of_verdict(Some(job.status.as_str())),
    }
}


pub open spec fn foreign_job_message() -> Seq<char> {
    "Job belongs to a different run, revision or ref"@
}

pub open spec fn job_view_result(r: Result<JobObservation, String>) -> Result<ObservedJob, Seq<char>> {
    match r {
        Ok(j) => Ok(j@),
        Err(e) => Err(e@),
    }
}

/// The run, revision and (GitLab) ref a job row claims to belong to.
pub open spec fn job_owner(provider: CiProvider, value: Json) -> Result<(u64, Seq<char>, Option<Seq<char>>), Seq<char>> {
    if provider == CiProvider::Github {
        match spec_number(value, "run_id"@) {
            Err(e) => Err(e),
            Ok(run) => match spec_string(value, "head_sha"@) {
                Err(e) => Err(e),
                Ok(revision) => Ok((run, revision, None)),
            },
        }
    } else {
        let pipeline = index(value, "pipeline"@);
        match spec_number(pipeline, "id"@) {
            Err(e) => Err(e),
            Ok(run) => match spec_string(pipeline, "sha"@) {
                Err(e) => Err(e),
                Ok(revision) => match spec_string(pipeline, "ref"@) {
                    Err(e) => Err(e),
                    Ok(reference) => Ok((run, revision, Some(reference))),
                },
            },
        }
    }
}

/// One job row of the expected run, read field by field.
pub open spec fn parse_job_spec(provider: CiProvider, expected: RunExpectation, value: Json) -> Result<ObservedJob, Seq<char>> {
    match job_owner(provider, value) {
        Err(e) => Err(e),
        Ok((run, revision, reference)) => if run != expected.run_id || !same_ignoring_ascii_case(revision, expected.revision@)
            || (reference is Some && reference->0 != expected.reference@) {
            Err(foreign_job_message())
        } else {
            match spec_number(value, "id"@) {
                Err(e) => Err(e),
                Ok(id) => match spec_string(value, "name"@) {
                    Err(e) => Err(e),
                    Ok(name) => match spec_string(value, "status"@) {
                        Err(e) => Err(e),
                        Ok(status) => if provider == CiProvider::Github && !(index(value, "conclusion"@) is Null) {
                            match spec_string(value, "conclusion"@) {
                                Err(e) => Err(e),
                                Ok(c) => Ok(ObservedJob { id, name, status, conclusion: Some(c) }),
                            }
                        } else {
                            Ok(ObservedJob { id, name, status, conclusion: None })
                        },
                    },
                },
            }
        },
    }
}

/// Reads one job row, which must belong to the expected run, revision and
/// (for GitLab) ref.
pub fn parse_job(provider: CiProvider, expected: &RunExpectation, value: &Json) -> (r: Result<JobObservation, String>)
    ensures
        job_view_result(r) == parse_job_spec(provider, *expected, *value),
{
    proof {
        reveal_strlit("run_id");
        reveal_strlit("head_sha");
        reveal_strlit("pipeline");
        reveal_strlit("id");
        reveal_strlit("sha");
        reveal_strlit("ref");
        reveal_strlit("name");
        reveal_strlit("status");
        reveal_strlit("conclusion");
        reveal_strlit("Job belongs to a different run, revision or ref");
    }
    let null = Json::Null;
    let github = match provider {
        CiProvider::Github => true,
        _ => false,
    };
    let run: u64;
    let revision: String;
    let reference: Option<String>;
    if github {
        run = match number(value, "run_id") { Ok(x) => x, Err(e) => return Err(e) };
        revision = match string(value, "head_sha") { Ok(x) => x, Err(e) => return Err(e) };
        reference = None;
    } else {
        let pipeline = nested(value, "pipeline", &null);
        run = match number(pipeline, "id") { Ok(x) => x, Err(e) => return Err(e) };
        revision = match string(pipeline, "sha") { Ok(x) => x, Err(e) => return Err(e) };
        reference = match string(pipeline, "ref") { Ok(x) => Some(x), Err(e) => return Err(e) };
    }
    let other_ref = match &reference {
        Some(r) => !same_text(r.as_str(), expected.reference.as_str()),
        None => false,
    };
    if run != expected.run_id || !eq_ignore_ascii_case(revision.as_str(), expected.revision.as_str()) || other_ref {
        return Err(owned("Job belongs to a different run, revision or ref"));
    }
    let id = match number(value, "id") { Ok(x) => x, Err(e) => return Err(e) };
    let name = match string(value, "name") { Ok(x) => x, Err(e) => return Err(e) };
    let status = match string(value, "status") { Ok(x) => x, Err(e) => return Err(e) };
    let conclusion = if github && !nested(value, "conclusion", &null).is_null() {
        match string(value, "conclusion") {
            Ok(c) => Some(c),
            Err(e) => return Err(e),
        }
    } else {
        None
    };
    Ok(JobObservation { id, name, status, conclusion })
}

pub open spec fn inventory_changed_message() -> Seq<char> {
    "Job inventory changed during observation; retry with a stable run"@
}

pub open spec fn run_changed_message() -> Seq<char> {
    "Run identity, attempt or status changed or became unavailable during observation"@
}

pub open spec fn retry_history_message() -> Seq<char> {
    "Retry history did not contain the observed current jobs"@
}

pub open spec fn observed_view(o: Option<RunObservation>) -> Option<ObservedRun> {
    match o {
        Some(r) => Some(r@),
        None => None,
    }
}

/// A job snapshot is usable only if two reads agree, the run still passes
/// unchanged, and (GitLab) the retry history holds every current job.
pub open spec fn snapshot_spec(
    report: RunVerification,
    final_run: RunVerification,
    current: Seq<ObservedJob>,
    again: Seq<ObservedJob>,
    history: Seq<ObservedJob>,
) -> Result<(), Seq<char>> {
    if current != again {
        Err(inventory_changed_message())
    } else if final_run.outcome != Outcome::Passed || observed_view(final_run.observed) != observed_view(report.observed) {
        Err(run_changed_message())
    } else if report.provider == CiProvider::Gitlab && exists|k: int| 0 <= k < current.len() && !history.contains(#[trigger] current[k]) {
        Err(retry_history_message())
    } else {
        Ok(())
    }
}

fn same_job(a: &JobObservation, b: &JobObservation) -> (r: bool)
    ensures
        r == (a@ == b@),
{
    let conclusions = match (&a.conclusion, &b.conclusion) {
        (Some(x), Some(y)) => same_text(x.as_str(), y.as_str()),
        (None, None) => true,
        _ => false,
    };
    a.id == b.id && same_text(a.name.as_str(), b.name.as_str()) && same_text(a.status.as_str(), b.status.as_str()) && conclusions
}

fn same_jobs(a: &[JobObservation], b: &[JobObservation]) -> (r: bool)
    ensures
        r == (job_views(a@) == job_views(b@)),
{
    if a.len() != b.len() {
        assert(job_views(a@).len() != job_views(b@).len());
        return false;
    }
    let mut i: usize = 0;
    while i < a.len()
        invariant
            a@.len() == b@.len(),
            i <= a@.len(),
            forall|k: int| 0 <= k < i ==> job_views(a@)[k] == job_views(b@)[k],
        decreases a.len() - i,
    {
        if !same_job(&a[i], &b[i]) {
            assert(job_views(a@)[i as int] != job_views(b@)[i as int]);
            return false;
        }
        i = i + 1;
    }
    assert(job_views(a@) =~= job_views(b@));
    true
}

pub fn same_observation(a: &Option<RunObservation>, b: &Option<RunObservation>) -> (r: bool)
    ensures
        r == (observed_view(*a) == observed_view(*b)),
{
    match (a, b) {
        (Some(x), Some(y)) => {
            let conclusions = match (&x.conclusion, &y.conclusion) {
                (Some(p), Some(q)) => same_text(p.as_str(), q.as_str()),
                (None, None) => true,
                _ => false,
            };
            same_text(x.identity.revision.as_str(), y.identity.revision.as_str())
                && x.identity.run_id == y.identity.run_id
                && same_text(x.identity.reference.as_str(), y.identity.reference.as_str())
                && same_text(x.identity.source.as_str(), y.identity.source.as_str())
                && x.identity.workflow_id == y.identity.workflow_id
                && same_text(x.status.as_str(), y.status.as_str())
                && conclusions
                && x.attempt == y.attempt
        },
        (None, None) => true,
        _ => false,
    }
}

fn job_in(job: &JobObservation, jobs: &[JobObservation]) -> (r: bool)
    ensures
        r == job_views(jobs@).contains(job@),
{
    let mut i: usize = 0;
    while i < jobs.len()
        invariant
            i <= jobs@.len(),
            forall|k: int| 0 <= k < i ==> job_views(jobs@)[k] != job@,
        decreases jobs.len() - i,
    {
        if same_job(&jobs[i], job) {
            assert(job_views(jobs@)[i as int] == job@);
            return true;
        }
        i = i + 1;
    }
    false
}

/// Checks that a job snapshot is stable and belongs to an unchanged run.
pub fn validate_snapshot(
    report: &RunVerification,
    final_run: &RunVerification,
    current: &[JobObservation],
    again: &[JobObservation],
    history: &[JobObservation],
) -> (r: Result<(), String>)
    ensures
        match r {
            Ok(()) => snapshot_spec(*report, *final_run, job_views(current@), job_views(again@), job_views(history@)) == Ok::<(), Seq<char>>(()),
            Err(e) => snapshot_spec(*report, *final_run, job_views(current@), job_views(again@), job_views(history@)) == Err::<(), Seq<char>>(e@),
        },
{
    proof {
        reveal_strlit("Job inventory changed during observation; retry with a stable run");
        reveal_strlit("Run identity, attempt or status changed or became unavailable during observation");
        reveal_strlit("Retry history did not contain the observed current jobs");
    }
    if !same_jobs(current, again) {
        return Err(owned("Job inventory changed during observation; retry with a stable run"));
    }
    let passed = match final_run.outcome {
        Outcome::Passed => true,
        _ => false,
    };
    if !passed || !same_observation(&final_run.observed, &report.observed) {
        return Err(owned("Run identity, attempt or status changed or became unavailable during observation"));
    }
    match report.provider {
        CiProvider::Gitlab => {
            let mut i: usize = 0;
            while i < current.len()
                invariant
                    i <= current@.len(),
                    report.provider == CiProvider::Gitlab,
                    job_views(current@) == job_views(again@),
                    final_run.outcome == Outcome::Passed,
                    observed_view(final_run.observed) == observed_view(report.observed),
                    forall|k: int| 0 <= k < i ==> job_views(history@).contains(#[trigger] job_views(current@)[k]),
                decreases current.len() - i,
            {
                if !job_in(&current[i], history) {
                    assert(!job_views(history@).contains(job_views(current@)[i as int]));
                    return Err(owned("Retry history did not contain the observed current jobs"));
                }
                i = i + 1;
            }
        },
        _ => {},
    }
    Ok(())
}


pub open spec fn job_scope_message() -> Seq<char> {
    "Only explicitly requested provider-owned jobs were compared. External check producers, policy sufficiency and merge enforcement are not verified."@
}

pub open spec fn attempt_note() -> Seq<char> {
    "Jobs are pinned to the observed run attempt; the run attempt number remains visible. Complete prior-attempt history is not collected."@
}

pub open spec fn superseded_note() -> Seq<char> {
    "Superseded matching jobs are retained as prior evidence and never satisfy a current requirement."@
}

pub open spec fn ambiguous_message(name: Seq<char>) -> Seq<char> {
    "Required job "@ + debug_quoted(name) + " is missing or ambiguous"@
}

/// The jobs whose name was requested, in order.
pub open spec fn kept(jobs: Seq<ObservedJob>, required: Seq<Seq<char>>) -> Seq<ObservedJob>
    decreases jobs.len(),
{
    if jobs.len() == 0 {
        Seq::empty()
    } else {
        let p = kept(jobs.drop_last(), required);
        if required.contains(jobs.last().name) {
            p.push(jobs.last())
        } else {
            p
        }
    }
}

pub open spec fn has_id(jobs: Seq<ObservedJob>, id: u64) -> bool {
    exists|k: int| 0 <= k < jobs.len() && (#[trigger] jobs[k]).id == id
}

/// Requested jobs of the retry history that are not current.
pub open spec fn superseded(history: Seq<ObservedJob>, required: Seq<Seq<char>>, current: Seq<ObservedJob>) -> Seq<ObservedJob>
    decreases history.len(),
{
    if history.len() == 0 {
        Seq::empty()
    } else {
        let p = superseded(history.drop_last(), required, current);
        let h = history.last();
        if required.contains(h.name) && !has_id(current, h.id) {
            p.push(h)
        } else {
            p
        }
    }
}

/// The jobs named `name`, in order.
pub open spec fn named(jobs: Seq<ObservedJob>, name: Seq<char>) -> Seq<ObservedJob>
    decreases jobs.len(),
{
    if jobs.len() == 0 {
        Seq::empty()
    } else {
        let p = named(jobs.drop_last(), name);
        if jobs.last().name == name {
            p.push(jobs.last())
        } else {
            p
        }
    }
}

/// A requested name fails if any job of that name failed, takes the outcome
/// of its one job if it names exactly one, and is unverified otherwise.
pub open spec fn name_outcome(provider: CiProvider, jobs: Seq<ObservedJob>, name: Seq<char>) -> Outcome {
    let m = named(jobs, name);
    if exists|k: int| 0 <= k < m.len() && job_outcome_spec(provider, #[trigger] m[k]) == Outcome::Failed {
        Outcome::Failed
    } else if m.len() == 1 {
        job_outcome_spec(provider, m[0])
    } else {
        Outcome::Unverified
    }
}

/// A failure always wins; otherwise the first outcome short of passing stays.
pub open spec fn fold_outcome(acc: Outcome, o: Outcome) -> Outcome {
    if o == Outcome::Failed || (acc == Outcome::Passed && o != Outcome::Passed) {
        o
    } else {
        acc
    }
}

pub open spec fn jobs_outcome(provider: CiProvider, jobs: Seq<ObservedJob>, required: Seq<Seq<char>>) -> Outcome
    decreases required.len(),
{
    if required.len() == 0 {
        Outcome::Passed
    } else {
        fold_outcome(jobs_outcome(provider, jobs, required.drop_last()), name_outcome(provider, jobs, required.last()))
    }
}

pub open spec fn ambiguity_notes(jobs: Seq<ObservedJob>, required: Seq<Seq<char>>) -> Seq<Seq<char>>
    decreases required.len(),
{
    if required.len() == 0 {
        Seq::empty()
    } else {
        let p = ambiguity_notes(jobs, required.drop_last());
        if named(jobs, required.last()).len() != 1 {
            p.push(ambiguous_message(required.last()))
        } else {
            p
        }
    }
}

pub open spec fn provider_note(provider: CiProvider) -> Seq<char> {
    if provider == CiProvider::Github {
        attempt_note()
    } else {
        superseded_note()
    }
}

fn name_in(name: &String, required: &[String]) -> (r: bool)
    ensures
        r == texts(required@).contains(name@),
{
    let mut i: usize = 0;
    while i < required.len()
        invariant
            i <= required@.len(),
            forall|k: int| 0 <= k < i ==> texts(required@)[k] != name@,
        decreases required.len() - i,
    {
        if same_text(required[i].as_str(), name.as_str()) {
            assert(texts(required@)[i as int] == name@);
            return true;
        }
        i = i + 1;
    }
    false
}

fn copy_names(required: &[String]) -> (r: Vec<String>)
    ensures
        r@ == required@,
{
    let mut out: Vec<String> = Vec::new();
    let mut i: usize = 0;
    while i < required.len()
        invariant
            i <= required@.len(),
            out@ == required@.subrange(0, i as int),
        decreases required.len() - i,
    {
        out.push(copy_string(&required[i]));
        i = i + 1;
    }
    assert(required@.subrange(0, required@.len() as int) =~= required@);
    out
}

fn keep_required(jobs: &[JobObservation], required: &[String]) -> (r: Vec<JobObservation>)
    ensures
        job_views(r@) == kept(job_views(jobs@), texts(required@)),
{
    let mut out: Vec<JobObservation> = Vec::new();
    let mut i: usize = 0;
    assert(job_views(jobs@).subrange(0, 0) =~= Seq::<ObservedJob>::empty());
    while i < jobs.len()
        invariant
            i <= jobs@.len(),
            job_views(out@) == kept(job_views(jobs@).subrange(0, i as int), texts(required@)),
        decreases jobs.len() - i,
    {
        let ghost pre = job_views(jobs@).subrange(0, i as int);
        assert(job_views(jobs@).subrange(0, i + 1).drop_last() =~= pre);
        assert(job_views(jobs@).subrange(0, i + 1).last() == jobs@[i as int]@);
        if name_in(&jobs[i].name, required) {
            let ghost before = out@;
            out.push(jobs[i].copy());
            assert(job_views(out@) =~= job_views(before).push(jobs@[i as int]@));
        }
        i = i + 1;
    }
    assert(job_views(jobs@).subrange(0, jobs@.len() as int) =~= job_views(jobs@));
    out
}

fn id_in(jobs: &[JobObservation], id: u64) -> (r: bool)
    ensures
        r == has_id(job_views(jobs@), id),
{
    let mut i: usize = 0;
    while i < jobs.len()
        invariant
            i <= jobs@.len(),
            forall|k: int| 0 <= k < i ==> job_views(jobs@)[k].id != id,
        decreases jobs.len() - i,
    {
        if jobs[i].id == id {
            assert(job_views(jobs@)[i as int].id == id);
            return true;
        }
        i = i + 1;
    }
    false
}

fn keep_superseded(history: &[JobObservation], required: &[String], current: &[JobObservation]) -> (r: Vec<JobObservation>)
    ensures
        job_views(r@) == superseded(job_views(history@), texts(required@), job_views(current@)),
{
    let mut out: Vec<JobObservation> = Vec::new();
    let mut i: usize = 0;
    assert(job_views(history@).subrange(0, 0) =~= Seq::<ObservedJob>::empty());
    while i < history.len()
        invariant
            i <= history@.len(),
            job_views(out@) == superseded(job_views(history@).subrange(0, i as int), texts(required@), job_views(current@)),
        decreases history.len() - i,
    {
        let ghost pre = job_views(history@).subrange(0, i as int);
        assert(job_views(history@).subrange(0, i + 1).drop_last() =~= pre);
        assert(job_views(history@).subrange(0, i + 1).last() == history@[i as int]@);
        if name_in(&history[i].name, required) && !id_in(current, history[i].id) {
            let ghost before = out@;
            out.push(history[i].copy());
            assert(job_views(out@) =~= job_views(before).push(history@[i as int]@));
        }
        i = i + 1;
    }
    assert(job_views(history@).subrange(0, history@.len() as int) =~= job_views(history@));
    out
}

/// The outcome of one requested name, and how many current jobs carry it.
fn outcome_of_name(provider: CiProvider, jobs: &Vec<JobObservation>, name: &String) -> (r: (Outcome, usize))
    ensures
        r.0 == name_outcome(provider, job_views(jobs@), name@),
        r.1 == named(job_views(jobs@), name@).len(),
{
    let mut count: usize = 0;
    let mut failed = false;
    let mut first = Outcome::Unverified;
    let mut i: usize = 0;
    assert(job_views(jobs@).subrange(0, 0) =~= Seq::<ObservedJob>::empty());
    while i < jobs.len()
        invariant
            i <= jobs@.len(),
            count as int == named(job_views(jobs@).subrange(0, i as int), name@).len(),
            count <= i,
            failed == exists|k: int| 0 <= k < named(job_views(jobs@).subrange(0, i as int), name@).len()
                && job_outcome_spec(provider, #[trigger] named(job_views(jobs@).subrange(0, i as int), name@)[k]) == Outcome::Failed,
            count >= 1 ==> first == job_outcome_spec(provider, named(job_views(jobs@).subrange(0, i as int), name@)[0]),
        decreases jobs.len() - i,
    {
        let ghost pre = job_views(jobs@).subrange(0, i as int);
        let ghost next = job_views(jobs@).subrange(0, i + 1);
        assert(next.drop_last() =~= pre);
        assert(next.last() == jobs@[i as int]@);
        if same_text(jobs[i].name.as_str(), name.as_str()) {
            let o = job_outcome(provider, &jobs[i]);
            proof {
                let m = named(pre, name@);
                assert(named(next, name@) == m.push(jobs@[i as int]@));
                if failed {
                    let k = choose|k: int| 0 <= k < m.len() && job_outcome_spec(provider, #[trigger] m[k]) == Outcome::Failed;
                    assert(named(next, name@)[k] == m[k]);
                }
                if o == Outcome::Failed {
                    assert(named(next, name@)[m.len() as int] == jobs@[i as int]@);
                }
                if !failed && o != Outcome::Failed {
                    assert forall|k: int| 0 <= k < named(next, name@).len() implies
                        job_outcome_spec(provider, #[trigger] named(next, name@)[k]) != Outcome::Failed by {
                        if k < m.len() {
                            assert(named(next, name@)[k] == m[k]);
                        }
                    }
                }
            }
            if count == 0 {
                first = o;
            }
            if o == Outcome::Failed {
                failed = true;
            }
            count = count + 1;
        } else {
            assert(named(next, name@) == named(pre, name@));
        }
        i = i + 1;
    }
    assert(job_views(jobs@).subrange(0, jobs@.len() as int) =~= job_views(jobs@));
    let outcome = if failed {
        Outcome::Failed
    } else if count == 1 {
        first
    } else {
        Outcome::Unverified
    };
    (outcome, count)
}

/// Compares the current jobs with the requested names: each name must
/// identify exactly one successful current job; superseded jobs are kept as
/// prior evidence and never satisfy a requirement.
pub fn reconcile_jobs(
    provider: CiProvider,
    required: &[String],
    current: Vec<JobObservation>,
    history: Vec<JobObservation>,
) -> (r: JobVerification)
    ensures
        r.required@ == required@,
        job_views(r.current@) == kept(job_views(current@), texts(required@)),
        job_views(r.prior@) == superseded(job_views(history@), texts(required@), job_views(current@)),
        r.outcome == jobs_outcome(provider, job_views(r.current@), texts(required@)),
        texts(r.diagnostics@) == seq![job_scope_message(), provider_note(provider)]
            + ambiguity_notes(job_views(r.current@), texts(required@)),
{
    proof {
        reveal_strlit("Only explicitly requested provider-owned jobs were compared. External check producers, policy sufficiency and merge enforcement are not verified.");
        reveal_strlit("Jobs are pinned to the observed run attempt; the run attempt number remains visible. Complete prior-attempt history is not collected.");
        reveal_strlit("Superseded matching jobs are retained as prior evidence and never satisfy a current requirement.");
        reveal_strlit("Required job ");
        reveal_strlit(" is missing or ambiguous");
    }
    let prior = keep_superseded(history.as_slice(), required, current.as_slice());
    let kept_current = keep_required(current.as_slice(), required);
    let mut diagnostics: Vec<String> = Vec::new();
    diagnostics.push(owned("Only explicitly requested provider-owned jobs were compared. External check producers, policy sufficiency and merge enforcement are not verified."));
    match provider {
        CiProvider::Github => diagnostics.push(owned("Jobs are pinned to the observed run attempt; the run attempt number remains visible. Complete prior-attempt history is not collected.")),
        _ => diagnostics.push(owned("Superseded matching jobs are retained as prior evidence and never satisfy a current requirement.")),
    }
    let ghost names = texts(required@);
    let ghost jobs = job_views(kept_current@);
    let ghost head = seq![job_scope_message(), provider_note(provider)];
    assert(texts(diagnostics@) =~= head + ambiguity_notes(jobs, names.subrange(0, 0)));
    let mut outcome = Outcome::Passed;
    let mut i: usize = 0;
    while i < required.len()
        invariant
            names == texts(required@),
            jobs == job_views(kept_current@),
            i <= required@.len(),
            outcome == jobs_outcome(provider, jobs, names.subrange(0, i as int)),
            texts(diagnostics@) == head + ambiguity_notes(jobs, names.subrange(0, i as int)),
        decreases required.len() - i,
    {
        let ghost pre = names.subrange(0, i as int);
        assert(names.subrange(0, i + 1).drop_last() =~= pre);
        assert(names.subrange(0, i + 1).last() == required@[i as int]@);
        let (o, count) = outcome_of_name(provider, &kept_current, &required[i]);
        if count != 1 {
            let quoted = debug_text(required[i].as_str());
            let mut note = joined("Required job ", quoted.as_str());
            note.append(" is missing or ambiguous");
            let ghost before = diagnostics@;
            diagnostics.push(note);
            assert(texts(diagnostics@) =~= texts(before).push(ambiguous_message(required@[i as int]@)));
        }
        if o == Outcome::Failed || (outcome == Outcome::Passed && o != Outcome::Passed) {
            outcome = o;
        }
        i = i + 1;
    }
    assert(names.subrange(0, required@.len() as int) =~= names);
    JobVerification {
        required: copy_names(required),
        current: kept_current,
        prior,
        outcome,
        diagnostics,
    }
}


pub open spec fn jobs_scope_message() -> Seq<char> {
    "Run and required-job observations only. Trusted check sources, merge protection, newer runs and artifact qualification are not established. No gate or provider setting was changed."@
}

pub open spec fn snapshot_note() -> Seq<char> {
    "Names are caller-selected policy inputs, not proof of an adequate test inventory. This is a bounded snapshot, not an atomic provider attestation."@
}

pub open spec fn not_queried_note() -> Seq<char> {
    "Jobs were not queried because run identity/status did not pass"@
}

/// Whether jobs are to be observed for a run report.
pub open spec fn wants_jobs(report: RunVerification, required: Seq<String>) -> bool {
    required.len() > 0 && required_ok(texts(required)) && report.outcome == Outcome::Passed
}

/// Whether the job inventory of this run is to be fetched: only for valid
/// requested names and a passed run, so an invalid request costs no lookup.
pub fn jobs_wanted(report: &RunVerification, required: &[String]) -> (r: bool)
    ensures
        r == wants_jobs(*report, required@),
{
    required.len() > 0 && validate_required(required).is_ok() && report.outcome == Outcome::Passed
}

/// Adds an explicitly requested job snapshot to a run report. Invalid or
/// duplicate names are refused. With no names the report is unchanged.
/// Otherwise the report becomes schema 2; jobs are compared only when the run
/// passed, from `fetched`, the stable snapshot or the reason it is unavailable.
pub fn verify_run_with_jobs(
    required: &[String],
    report: RunVerification,
    fetched: Option<Result<(Vec<JobObservation>, Vec<JobObservation>), String>>,
) -> (r: Result<RunVerification, RemoteError>)
    requires
        report.diagnostics.len() >= 1,
        wants_jobs(report, required@) ==> fetched is Some,
    ensures
        !required_ok(texts(required@)) ==> (r matches Err(RemoteError::InvalidExpectation(m)) && m@ == required_names_message()),
        required_ok(texts(required@)) ==> r is Ok,
        r matches Ok(v) ==> {
            if required.len() == 0 {
                v == report
            } else {
                &&& v.schema == 2
                &&& v.repository == report.repository
                &&& v.provider == report.provider
                &&& v.expected == report.expected
                &&& v.observed == report.observed
                &&& v.outcome == report.outcome
                &&& v.qualification == report.qualification
                &&& texts(v.diagnostics@) == texts(report.diagnostics@).update(0, jobs_scope_message())
                &&& (v.jobs matches Some(j) && {
                    if report.outcome != Outcome::Passed {
                        &&& j.required@ == required@
                        &&& j.current@.len() == 0
                        &&& j.prior@.len() == 0
                        &&& j.outcome == Outcome::Unverified
                        &&& texts(j.diagnostics@) == seq![snapshot_note(), not_queried_note()]
                    } else {
                        match fetched {
                            Some(Ok((current, history))) => {
                                &&& j.required@ == required@
                                &&& job_views(j.current@) == kept(job_views(current@), texts(required@))
                                &&& job_views(j.prior@) == superseded(job_views(history@), texts(required@), job_views(current@))
                                &&& j.outcome == jobs_outcome(report.provider, job_views(j.current@), texts(required@))
                                &&& texts(j.diagnostics@) == seq![job_scope_message(), provider_note(report.provider)]
                                    + ambiguity_notes(job_views(j.current@), texts(required@))
                            },
                            Some(Err(reason)) => {
                                &&& j.required@ == required@
                                &&& j.current@.len() == 0
                                &&& j.prior@.len() == 0
                                &&& j.outcome == Outcome::Unverified
                                &&& texts(j.diagnostics@) == seq![snapshot_note(), reason@]
                            },
                            None => false,
                        }
                    }
                })
            }
        },
{
    proof {
        reveal_strlit("Run and required-job observations only. Trusted check sources, merge protection, newer runs and artifact qualification are not established. No gate or provider setting was changed.");
        reveal_strlit("Names are caller-selected policy inputs, not proof of an adequate test inventory. This is a bounded snapshot, not an atomic provider attestation.");
        reveal_strlit("Jobs were not queried because run identity/status did not pass");
    }
    match validate_required(required) {
        Ok(()) => {},
        Err(e) => return Err(e),
    }
    if required.len() == 0 {
        return Ok(report);
    }
    let mut report = report;
    let ghost before = report.diagnostics@;
    report.schema = 2;
    report.diagnostics.set(0, owned("Run and required-job observations only. Trusted check sources, merge protection, newer runs and artifact qualification are not established. No gate or provider setting was changed."));
    assert(texts(report.diagnostics@) =~= texts(before).update(0, jobs_scope_message()));
    let mut notes: Vec<String> = Vec::new();
    notes.push(owned("Names are caller-selected policy inputs, not proof of an adequate test inventory. This is a bounded snapshot, not an atomic provider attestation."));
    let jobs = if report.outcome == Outcome::Passed {
        match fetched {
            Some(Ok((current, history))) => reconcile_jobs(report.provider, required, current, history),
            Some(Err(reason)) => {
                notes.push(reason);
                JobVerification { required: copy_names(required), current: Vec::new(), prior: Vec::new(), outcome: Outcome::Unverified, diagnostics: notes }
            },
            None => {
                notes.push(owned("Jobs were not queried because run identity/status did not pass"));
                JobVerification { required: copy_names(required), current: Vec::new(), prior: Vec::new(), outcome: Outcome::Unverified, diagnostics: notes }
            },
        }
    } else {
        notes.push(owned("Jobs were not queried because run identity/status did not pass"));
        JobVerification { required: copy_names(required), current: Vec::new(), prior: Vec::new(), outcome: Outcome::Unverified, diagnostics: notes }
    };
    proof {
        assert(texts(jobs.diagnostics@) =~= texts(jobs.diagnostics@));
    }
    report.jobs = Some(jobs);
    Ok(report)
}

/// A failed required job is never hidden: if any requested name has a failed
/// current job, the job snapshot fails.
pub proof fn lemma_job_failure_wins(provider: CiProvider, jobs: Seq<ObservedJob>, required: Seq<Seq<char>>, i: int)
    requires
        0 <= i < required.len(),
        name_outcome(provider, jobs, required[i]) == Outcome::Failed,
    ensures
        jobs_outcome(provider, jobs, required) == Outcome::Failed,
    decreases required.len(),
{
    if i < required.len() - 1 {
        assert(required.drop_last()[i] == required[i]);
        lemma_job_failure_wins(provider, jobs, required.drop_last(), i);
    }
}

/// A job snapshot passes only if every requested name identifies exactly one
/// current job and that job passed.
pub proof fn lemma_jobs_pass_only_when_each_passes(provider: CiProvider, jobs: Seq<ObservedJob>, required: Seq<Seq<char>>, i: int)
    requires
        0 <= i < required.len(),
        jobs_outcome(provider, jobs, required) == Outcome::Passed,
    ensures
        named(jobs, required[i]).len() == 1,
        job_outcome_spec(provider, named(jobs, required[i])[0]) == Outcome::Passed,
    decreases required.len(),
{
    let last = name_outcome(provider, jobs, required.last());
    let prev = jobs_outcome(provider, jobs, required.drop_last());
    assert(fold_outcome(prev, last) == Outcome::Passed);
    if i < required.len() - 1 {
        assert(prev == Outcome::Passed);
        assert(required.drop_last()[i] == required[i]);
        lemma_jobs_pass_only_when_each_passes(provider, jobs, required.drop_last(), i);
    } else {
        assert(last == Outcome::Passed);
    }
}

} // verus!
