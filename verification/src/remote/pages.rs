//! Bounded pagination of provider collections. The caller fetches the page
//! the collector asks for and hands back the response; the collector decides
//! whether the collection is complete, needs another page, or is unusable.
use vstd::prelude::*;
use crate::json::{Json, find_member, index, json_same, member, same_json, spec_as_array, spec_as_u64};
use crate::manifest::CiProvider;
use crate::remote::jobs::{JobObservation, ObservedJob, job_view_result, job_views, parse_job, parse_job_spec};
use crate::remote::run::RunExpectation;
use crate::text::{copy_string, owned, same_text};

verus! {

/// The value of member `key`, taken out of an object.
pub fn take_member(v: Json, key: &str) -> (r: Option<Json>)
    ensures
        r == member(v, key@),
{
    match v {
        Json::Object(members) => {
            let mut members = members;
            let ghost all = members@;
            let mut i: usize = 0;
            assert(all.subrange(0, all.len() as int) =~= all);
            while i < members.len()
                invariant
                    members@ == all,
                    i <= all.len(),
                    find_member(all, key@) == member(v, key@),
                    find_member(all, key@) == find_member(all.subrange(i as int, all.len() as int), key@),
                decreases members.len() - i,
            {
                let ghost rest = all.subrange(i as int, all.len() as int);
                assert(rest[0] == all[i as int]);
                assert(rest.drop_first() =~= all.subrange(i + 1, all.len() as int));
                if same_text(members[i].0.as_str(), key) {
                    let (_, x) = members.remove(i);
                    return Some(x);
                }
                i = i + 1;
            }
            None
        },
        _ => None,
    }
}

/// Rows appended in order; `None` once a row repeats an earlier one.
pub open spec fn take_rows(rows: Seq<Json>, arr: Seq<Json>) -> Option<Seq<Json>>
    decreases arr.len(),
{
    if arr.len() == 0 {
        Some(rows)
    } else {
        match take_rows(rows, arr.drop_last()) {
            None => None,
            Some(r) => if exists|k: int| 0 <= k < r.len() && json_same(#[trigger] r[k], arr.last()) {
                None
            } else {
                Some(r.push(arr.last()))
            },
        }
    }
}

/// A collection being read page by page.
#[derive(Debug)]
pub struct Pages {
    /// The member holding the rows, for collections that report a total.
    pub field: Option<String>,
    pub rows: Vec<Json>,
    pub total: Option<u64>,
    /// The page last asked for.
    pub page: u32,
}

pub struct PagesView {
    pub field: Option<Seq<char>>,
    pub rows: Seq<Json>,
    pub total: Option<u64>,
    pub page: u32,
}

impl View for Pages {
    type V = PagesView;

    open spec fn view(&self) -> PagesView {
        PagesView {
            field: match self.field { Some(f) => Some(f@), None => None },
            rows: self.rows@,
            total: self.total,
            page: self.page,
        }
    }
}

#[derive(Debug)]
pub enum PagesNext {
    /// Fetch this page next.
    Next(Pages, u32),
    /// The complete collection, or why it is unusable.
    Done(Result<Vec<Json>, String>),
}

pub enum PagesNextView {
    Next(PagesView, u32),
    Done(Result<Seq<Json>, Seq<char>>),
}

pub open spec fn pages_next_view(n: PagesNext) -> PagesNextView {
    match n {
        PagesNext::Next(p, k) => PagesNextView::Next(p@, k),
        PagesNext::Done(Ok(rows)) => PagesNextView::Done(Ok(rows@)),
        PagesNext::Done(Err(e)) => PagesNextView::Done(Err(e@)),
    }
}

pub open spec fn done_err(e: Seq<char>) -> PagesNextView {
    PagesNextView::Done(Err(e))
}

/// The total a page reports, checked against the one seen before.
pub open spec fn counted(s: PagesView, v: Json) -> Result<Option<u64>, Seq<char>> {
    match s.field {
        None => Ok(s.total),
        Some(_) => match spec_as_u64(index(v, "total_count"@)) {
            None => Err("Missing collection total"@),
            Some(count) => if count > 1000 || (s.total is Some && s.total->0 != count) {
                Err("Collection total changed or exceeded the limit"@)
            } else {
                Ok(Some(count))
            },
        },
    }
}

/// The rows of a page.
pub open spec fn listed(s: PagesView, v: Json) -> Option<Seq<Json>> {
    match s.field {
        None => spec_as_array(v),
        Some(f) => spec_as_array(index(v, f)),
    }
}

/// One page of a collection: its reported total must be stable and at most
/// 1000, the page an array of at most 100 rows, rows never repeat, and the
/// rows so far must agree with the total; at most 10 pages are read.
pub open spec fn pages_step(s: PagesView, value: Result<Json, Seq<char>>) -> PagesNextView {
    match value {
        Err(e) => done_err(e),
        Ok(v) => match counted(s, v) {
            Err(e) => done_err(e),
            Ok(total) => match listed(s, v) {
                None => done_err("Provider collection was not an array"@),
                Some(arr) => if arr.len() > 100 {
                    done_err("Provider page exceeded its requested size"@)
                } else {
                    match take_rows(s.rows, arr) {
                        None => done_err("Repeated collection entry; pagination completeness is unknown"@),
                        Some(rows) => if total is Some && (rows.len() > total->0 || (arr.len() < 100 && rows.len() < total->0)) {
                            done_err("Collection was incomplete or inconsistent"@)
                        } else if (total is Some && total->0 == rows.len()) || (total is None && arr.len() < 100) {
                            PagesNextView::Done(Ok(rows))
                        } else if s.page >= 10 {
                            done_err("Collection exceeded 10 pages; completeness is unverified"@)
                        } else {
                            PagesNextView::Next(PagesView { rows, total, page: (s.page + 1) as u32, ..s }, (s.page + 1) as u32)
                        },
                    }
                },
            },
        },
    }
}

pub open spec fn result_view(r: Result<Json, String>) -> Result<Json, Seq<char>> {
    match r {
        Ok(v) => Ok(v),
        Err(e) => Err(e@),
    }
}

fn repeated(rows: &Vec<Json>, row: &Json) -> (r: bool)
    ensures
        r == exists|k: int| 0 <= k < rows@.len() && json_same(#[trigger] rows@[k], *row),
{
    let mut i: usize = 0;
    while i < rows.len()
        invariant
            i <= rows@.len(),
            forall|k: int| 0 <= k < i ==> !json_same(#[trigger] rows@[k], *row),
        decreases rows.len() - i,
    {
        if same_json(&rows[i], row) {
            return true;
        }
        i = i + 1;
    }
    false
}

impl Pages {
    /// Begins reading a collection; its first page is page 1.
    pub fn start(field: Option<&str>) -> (r: (Pages, u32))
        ensures
            r.0@ == (PagesView { field: match field { Some(f) => Some(f@), None => None }, rows: Seq::empty(), total: None, page: 1 }),
            r.1 == 1,
    {
        let field = match field {
            Some(f) => Some(owned(f)),
            None => None,
        };
        (Pages { field, rows: Vec::new(), total: None, page: 1 }, 1)
    }

    /// Takes the response for the page last asked for.
    pub fn feed(self, value: Result<Json, String>) -> (r: PagesNext)
        requires
            1 <= self.page <= 10,
        ensures
            pages_next_view(r) == pages_step(self@, result_view(value)),
            r matches PagesNext::Next(p, k) ==> 1 <= p.page <= 10 && p.page == k,
    {
        proof {
            reveal_strlit("total_count");
            reveal_strlit("Missing collection total");
            reveal_strlit("Collection total changed or exceeded the limit");
            reveal_strlit("Provider collection was not an array");
            reveal_strlit("Provider page exceeded its requested size");
            reveal_strlit("Repeated collection entry; pagination completeness is unknown");
            reveal_strlit("Collection was incomplete or inconsistent");
            reveal_strlit("Collection exceeded 10 pages; completeness is unverified");
        }
        let ghost start = self@;
        let mut s = self;
        let v = match value {
            Err(e) => return PagesNext::Done(Err(e)),
            Ok(v) => v,
        };
        let ghost whole = v;
        let total: Option<u64> = match &s.field {
            None => s.total,
            Some(_) => {
                let count = match v.get("total_count") {
                    Some(c) => c.as_u64(),
                    None => None,
                };
                match count {
                    None => return PagesNext::Done(Err(owned("Missing collection total"))),
                    Some(count) => {
                        let changed = match s.total {
                            Some(t) => t != count,
                            None => false,
                        };
                        if count > 1000 || changed {
                            return PagesNext::Done(Err(owned("Collection total changed or exceeded the limit")));
                        }
                        Some(count)
                    },
                }
            },
        };
        let holder = match &s.field {
            None => v,
            Some(f) => match take_member(v, f.as_str()) {
                Some(x) => x,
                None => Json::Null,
            },
        };
        let mut arr = match holder {
            Json::Array(items) => items,
            _ => return PagesNext::Done(Err(owned("Provider collection was not an array"))),
        };
        if arr.len() > 100 {
            return PagesNext::Done(Err(owned("Provider page exceeded its requested size")));
        }
        let n = arr.len();
        let ghost page_rows = arr@;
        let mut i: usize = 0;
        assert(page_rows.subrange(0, 0) =~= Seq::<Json>::empty());
        while i < n
            invariant
                n == page_rows.len(),
                n <= 100,
                i <= n,
                result_view(value) == Ok::<Json, Seq<char>>(whole),
                start == self@,
                counted(start, whole) == Ok::<Option<u64>, Seq<char>>(total),
                listed(start, whole) == Some(page_rows),
                s@.field == start.field,
                s.total == start.total,
                s.page == start.page,
                1 <= s.page <= 10,
                arr@ == page_rows.subrange(i as int, n as int),
                take_rows(start.rows, page_rows.subrange(0, i as int)) == Some(s.rows@),
            decreases n - i,
        {
            assert(page_rows.subrange(0, i + 1).drop_last() =~= page_rows.subrange(0, i as int));
            assert(page_rows.subrange(0, i + 1).last() == page_rows[i as int]);
            let row = arr.remove(0);
            assert(row == page_rows[i as int]);
            assert(arr@ =~= page_rows.subrange(i + 1, n as int));
            if repeated(&s.rows, &row) {
                proof {
                    let k = choose|k: int| 0 <= k < s.rows@.len() && json_same(#[trigger] s.rows@[k], row);
                    assert(json_same(s.rows@[k], page_rows.subrange(0, i + 1).last()));
                    assert(take_rows(start.rows, page_rows.subrange(0, i + 1)) is None);
                    lemma_take_rows_stop(start.rows, page_rows, i + 1);
                }
                return PagesNext::Done(Err(owned("Repeated collection entry; pagination completeness is unknown")));
            }
            s.rows.push(row);
            i = i + 1;
        }
        assert(page_rows.subrange(0, n as int) =~= page_rows);
        let count = s.rows.len();
        match total {
            Some(t) => {
                if (count as u64) > t || (n < 100 && (count as u64) < t) {
                    return PagesNext::Done(Err(owned("Collection was incomplete or inconsistent")));
                }
            },
            None => {},
        }
        let complete = match total {
            Some(t) => t == count as u64,
            None => n < 100,
        };
        if complete {
            return PagesNext::Done(Ok(s.rows));
        }
        if s.page >= 10 {
            return PagesNext::Done(Err(owned("Collection exceeded 10 pages; completeness is unverified")));
        }
        s.total = total;
        s.page = s.page + 1;
        let k = s.page;
        PagesNext::Next(s, k)
    }
}

proof fn lemma_take_rows_stop(rows: Seq<Json>, arr: Seq<Json>, n: int)
    requires
        0 <= n <= arr.len(),
        take_rows(rows, arr.subrange(0, n)) is None,
    ensures
        take_rows(rows, arr) is None,
    decreases arr.len() - n,
{
    if n < arr.len() {
        assert(arr.subrange(0, n + 1).drop_last() =~= arr.subrange(0, n));
        lemma_take_rows_stop(rows, arr, n + 1);
    } else {
        assert(arr.subrange(0, n) =~= arr);
    }
}


/// Jobs in ascending ID order; jobs with equal IDs keep their order.
pub open spec fn insert_by_id(s: Seq<ObservedJob>, x: ObservedJob) -> Seq<ObservedJob>
    decreases s.len(),
{
    if s.len() == 0 {
        seq![x]
    } else if x.id < s[0].id {
        seq![x] + s
    } else {
        seq![s[0]] + insert_by_id(s.drop_first(), x)
    }
}

pub open spec fn sorted_by_id(v: Seq<ObservedJob>) -> Seq<ObservedJob>
    decreases v.len(),
{
    if v.len() == 0 {
        Seq::empty()
    } else {
        insert_by_id(sorted_by_id(v.drop_last()), v.last())
    }
}

proof fn lemma_insert_by_id_at(s: Seq<ObservedJob>, x: ObservedJob, p: int)
    requires
        0 <= p <= s.len(),
        forall|k: int| 0 <= k < p ==> !(x.id < (#[trigger] s[k]).id),
        p < s.len() ==> x.id < s[p].id,
    ensures
        insert_by_id(s, x) == s.take(p) + seq![x] + s.skip(p),
    decreases s.len(),
{
    if s.len() == 0 {
        assert(s.take(p) + seq![x] + s.skip(p) =~= seq![x]);
    } else if p == 0 {
        assert(s.take(p) + seq![x] + s.skip(p) =~= seq![x] + s);
    } else {
        let t = s.drop_first();
        assert forall|k: int| 0 <= k < p - 1 implies !(x.id < (#[trigger] t[k]).id) by {
            assert(t[k] == s[k + 1]);
        }
        if p - 1 < t.len() {
            assert(t[p - 1] == s[p]);
        }
        lemma_insert_by_id_at(t, x, p - 1);
        assert(seq![s[0]] + (t.take(p - 1) + seq![x] + t.skip(p - 1)) =~= s.take(p) + seq![x] + s.skip(p));
    }
}

/// Sorts jobs by ID (`sort_by_key`, stable).
fn sort_jobs(v: Vec<JobObservation>) -> (r: Vec<JobObservation>)
    ensures
        job_views(r@) == sorted_by_id(job_views(v@)),
{
    let mut out: Vec<JobObservation> = Vec::new();
    let mut rest = v;
    let ghost all = job_views(rest@);
    let n = rest.len();
    let mut i: usize = 0;
    assert(all.subrange(0, 0) =~= Seq::<ObservedJob>::empty());
    while i < n
        invariant
            n == all.len(),
            i <= n,
            job_views(rest@) == all.subrange(i as int, n as int),
            job_views(out@) == sorted_by_id(all.subrange(0, i as int)),
        decreases n - i,
    {
        assert(all.subrange(0, i + 1).drop_last() =~= all.subrange(0, i as int));
        assert(job_views(rest@).len() == rest@.len());
        assert(job_views(rest@)[0] == rest@[0]@);
        let ghost old_rest = rest@;
        let x = rest.remove(0);
        assert(rest@ =~= old_rest.subrange(1, old_rest.len() as int));
        assert(job_views(rest@) =~= job_views(old_rest).subrange(1, old_rest.len() as int));
        assert(x@ == all[i as int]);
        assert(all.subrange(0, i + 1).last() == all[i as int]);
        assert(job_views(rest@) =~= all.subrange(i + 1, n as int));
        let mut p: usize = 0;
        while p < out.len() && !(x.id < out[p].id)
            invariant
                p <= out@.len(),
                forall|k: int| 0 <= k < p ==> !(x.id < (#[trigger] job_views(out@)[k]).id),
            decreases out.len() - p,
        {
            p = p + 1;
        }
        proof { lemma_insert_by_id_at(job_views(out@), x@, p as int); }
        let ghost before = out@;
        let ghost xv = x@;
        out.insert(p, x);
        assert(job_views(out@) =~= job_views(before).take(p as int) + seq![xv] + job_views(before).skip(p as int));
        i = i + 1;
    }
    assert(all.subrange(0, n as int) =~= all);
    out
}

/// A job inventory being read page by page.
#[derive(Debug)]
pub struct JobPages {
    pub provider: CiProvider,
    pub expected: RunExpectation,
    pub jobs: Vec<JobObservation>,
    pub total: Option<u64>,
    /// The page last asked for.
    pub page: u32,
}

pub struct JobPagesView {
    pub provider: CiProvider,
    pub expected: RunExpectation,
    pub jobs: Seq<ObservedJob>,
    pub total: Option<u64>,
    pub page: u32,
}

impl View for JobPages {
    type V = JobPagesView;

    open spec fn view(&self) -> JobPagesView {
        JobPagesView { provider: self.provider, expected: self.expected, jobs: job_views(self.jobs@), total: self.total, page: self.page }
    }
}

#[derive(Debug)]
pub enum JobPagesNext {
    /// Fetch this page next.
    Next(JobPages, u32),
    /// The complete inventory in ID order, or why it is unusable.
    Done(Result<Vec<JobObservation>, String>),
}

pub enum JobPagesNextView {
    Next(JobPagesView, u32),
    Done(Result<Seq<ObservedJob>, Seq<char>>),
}

pub open spec fn job_pages_next_view(n: JobPagesNext) -> JobPagesNextView {
    match n {
        JobPagesNext::Next(p, k) => JobPagesNextView::Next(p@, k),
        JobPagesNext::Done(Ok(jobs)) => JobPagesNextView::Done(Ok(job_views(jobs@))),
        JobPagesNext::Done(Err(e)) => JobPagesNextView::Done(Err(e@)),
    }
}

pub open spec fn jobs_done_err(e: Seq<char>) -> JobPagesNextView {
    JobPagesNextView::Done(Err(e))
}

/// The job total a GitHub page reports, checked against the one seen before.
pub open spec fn job_counted(s: JobPagesView, v: Json) -> Result<Option<u64>, Seq<char>> {
    if s.provider == CiProvider::Github {
        match spec_as_u64(index(v, "total_count"@)) {
            None => Err("Job count is unavailable"@),
            Some(count) => if count > 1000 || (s.total is Some && s.total->0 != count) {
                Err("Job count changed or exceeded the inventory limit"@)
            } else {
                Ok(Some(count))
            },
        }
    } else {
        Ok(s.total)
    }
}

pub open spec fn job_listed(s: JobPagesView, v: Json) -> Option<Seq<Json>> {
    if s.provider == CiProvider::Github {
        spec_as_array(index(v, "jobs"@))
    } else {
        spec_as_array(v)
    }
}

pub open spec fn has_job_id(jobs: Seq<ObservedJob>, id: u64) -> bool {
    exists|k: int| 0 <= k < jobs.len() && (#[trigger] jobs[k]).id == id
}

/// Rows parsed in order into jobs of the expected run, no ID repeated.
pub open spec fn take_jobs(provider: CiProvider, expected: RunExpectation, jobs: Seq<ObservedJob>, rows: Seq<Json>) -> Result<Seq<ObservedJob>, Seq<char>>
    decreases rows.len(),
{
    if rows.len() == 0 {
        Ok(jobs)
    } else {
        match take_jobs(provider, expected, jobs, rows.drop_last()) {
            Err(e) => Err(e),
            Ok(js) => match parse_job_spec(provider, expected, rows.last()) {
                Err(e) => Err(e),
                Ok(job) => if has_job_id(js, job.id) {
                    Err("Duplicate job ID across inventory pages"@)
                } else {
                    Ok(js.push(job))
                },
            },
        }
    }
}

/// One page of a job inventory, with the same bounds as any collection.
pub open spec fn job_pages_step(s: JobPagesView, value: Result<Json, Seq<char>>) -> JobPagesNextView {
    match value {
        Err(e) => jobs_done_err(e),
        Ok(v) => match job_counted(s, v) {
            Err(e) => jobs_done_err(e),
            Ok(total) => match job_listed(s, v) {
                None => jobs_done_err("Job inventory is not an array"@),
                Some(rows) => if rows.len() > 100 {
                    jobs_done_err("Job page exceeded the requested page size"@)
                } else {
                    match take_jobs(s.provider, s.expected, s.jobs, rows) {
                        Err(e) => jobs_done_err(e),
                        Ok(jobs) => if total is Some && (jobs.len() > total->0 || (rows.len() < 100 && jobs.len() < total->0)) {
                            jobs_done_err("Job inventory is inconsistent with its total count"@)
                        } else if (total is Some && total->0 == jobs.len()) || (total is None && rows.len() < 100) {
                            JobPagesNextView::Done(Ok(sorted_by_id(jobs)))
                        } else if s.page >= 10 {
                            jobs_done_err("Job inventory exceeded the 10-page limit; completeness is unverified"@)
                        } else {
                            JobPagesNextView::Next(JobPagesView { jobs, total, page: (s.page + 1) as u32, ..s }, (s.page + 1) as u32)
                        },
                    }
                },
            },
        },
    }
}

proof fn lemma_take_jobs_stop(provider: CiProvider, expected: RunExpectation, jobs: Seq<ObservedJob>, rows: Seq<Json>, n: int)
    requires
        0 <= n <= rows.len(),
        take_jobs(provider, expected, jobs, rows.subrange(0, n)) is Err,
    ensures
        take_jobs(provider, expected, jobs, rows) == take_jobs(provider, expected, jobs, rows.subrange(0, n)),
    decreases rows.len() - n,
{
    if n < rows.len() {
        assert(rows.subrange(0, n + 1).drop_last() =~= rows.subrange(0, n));
        lemma_take_jobs_stop(provider, expected, jobs, rows, n + 1);
    } else {
        assert(rows.subrange(0, n) =~= rows);
    }
}

fn job_id_seen(jobs: &Vec<JobObservation>, id: u64) -> (r: bool)
    ensures
        r == has_job_id(job_views(jobs@), id),
{
    let mut i: usize = 0;
    while i < jobs.len()
        invariant
            i <= jobs@.len(),
            forall|k: int| 0 <= k < i ==> job_views(jobs@)[k].id != id,
        decreases jobs.len() - i,
    {
        if jobs[i].id == id {
            assert(job_views(jobs@)[i as int].id == id);
            return true;
        }
        i = i + 1;
    }
    false
}

impl JobPages {
    /// Begins reading the job inventory of the expected run; page 1 first.
    pub fn start(provider: CiProvider, expected: RunExpectation) -> (r: (JobPages, u32))
        ensures
            r.0@ == (JobPagesView { provider, expected, jobs: Seq::empty(), total: None, page: 1 }),
            r.1 == 1,
    {
        let r = JobPages { provider, expected, jobs: Vec::new(), total: None, page: 1 };
        assert(r@.jobs =~= Seq::<ObservedJob>::empty());
        (r, 1)
    }

    /// Takes the response for the page last asked for.
    pub fn feed(self, value: Result<Json, String>) -> (r: JobPagesNext)
        requires
            1 <= self.page <= 10,
        ensures
            job_pages_next_view(r) == job_pages_step(self@, result_view(value)),
            r matches JobPagesNext::Next(p, k) ==> 1 <= p.page <= 10 && p.page == k,
    {
        proof {
            reveal_strlit("total_count");
            reveal_strlit("jobs");
            reveal_strlit("Job count is unavailable");
            reveal_strlit("Job count changed or exceeded the inventory limit");
            reveal_strlit("Job inventory is not an array");
            reveal_strlit("Job page exceeded the requested page size");
            reveal_strlit("Duplicate job ID across inventory pages");
            reveal_strlit("Job inventory is inconsistent with its total count");
            reveal_strlit("Job inventory exceeded the 10-page limit; completeness is unverified");
        }
        let ghost start = self@;
        let mut s = self;
        let v = match value {
            Err(e) => return JobPagesNext::Done(Err(e)),
            Ok(v) => v,
        };
        let github = s.provider == CiProvider::Github;
        let total: Option<u64> = if github {
            let count = match v.get("total_count") {
                Some(c) => c.as_u64(),
                None => None,
            };
            match count {
                None => return JobPagesNext::Done(Err(owned("Job count is unavailable"))),
                Some(count) => {
                    let changed = match s.total {
                        Some(t) => t != count,
                        None => false,
                    };
                    if count > 1000 || changed {
                        return JobPagesNext::Done(Err(owned("Job count changed or exceeded the inventory limit")));
                    }
                    Some(count)
                },
            }
        } else {
            s.total
        };
        let holder: Option<&Json> = if github { v.get("jobs") } else { Some(&v) };
        let rows = match holder {
            Some(Json::Array(items)) => items,
            _ => return JobPagesNext::Done(Err(owned("Job inventory is not an array"))),
        };
        if rows.len() > 100 {
            return JobPagesNext::Done(Err(owned("Job page exceeded the requested page size")));
        }
        let n = rows.len();
        let mut i: usize = 0;
        assert(rows@.subrange(0, 0) =~= Seq::<Json>::empty());
        while i < n
            invariant
                n == rows@.len(),
                n <= 100,
                i <= n,
                start == self@,
                result_view(value) == Ok::<Json, Seq<char>>(v),
                job_counted(start, v) == Ok::<Option<u64>, Seq<char>>(total),
                job_listed(start, v) == Some(rows@),
                s.provider == start.provider,
                s.expected == start.expected,
                s.total == start.total,
                s.page == start.page,
                1 <= s.page <= 10,
                take_jobs(start.provider, start.expected, start.jobs, rows@.subrange(0, i as int)) == Ok::<Seq<ObservedJob>, Seq<char>>(job_views(s.jobs@)),
            decreases n - i,
        {
            assert(rows@.subrange(0, i + 1).drop_last() =~= rows@.subrange(0, i as int));
            assert(rows@.subrange(0, i + 1).last() == rows@[i as int]);
            let job = match parse_job(s.provider, &s.expected, &rows[i]) {
                Ok(j) => j,
                Err(e) => {
                    proof { lemma_take_jobs_stop(start.provider, start.expected, start.jobs, rows@, i + 1); }
                    return JobPagesNext::Done(Err(e));
                },
            };
            if job_id_seen(&s.jobs, job.id) {
                proof { lemma_take_jobs_stop(start.provider, start.expected, start.jobs, rows@, i + 1); }
                return JobPagesNext::Done(Err(owned("Duplicate job ID across inventory pages")));
            }
            let ghost before = s.jobs@;
            let ghost jv = job@;
            s.jobs.push(job);
            assert(job_views(s.jobs@) =~= job_views(before).push(jv));
            i = i + 1;
        }
        assert(rows@.subrange(0, n as int) =~= rows@);
        let count = s.jobs.len();
        match total {
            Some(t) => {
                if (count as u64) > t || (n < 100 && (count as u64) < t) {
                    return JobPagesNext::Done(Err(owned("Job inventory is inconsistent with its total count")));
                }
            },
            None => {},
        }
        let complete = match total {
            Some(t) => t == count as u64,
            None => n < 100,
        };
        if complete {
            return JobPagesNext::Done(Ok(sort_jobs(s.jobs)));
        }
        if s.page >= 10 {
            return JobPagesNext::Done(Err(owned("Job inventory exceeded the 10-page limit; completeness is unverified")));
        }
        s.total = total;
        s.page = s.page + 1;
        let k = s.page;
        JobPagesNext::Next(s, k)
    }
}

} // verus!
