//! Producer-bound comparison of required checks against provider check rows.
use vstd::prelude::*;
use crate::json::{Json, index};
use crate::manifest::CiProvider;
use crate::policy::RequiredCheck;
use crate::remote::run::{
    RunExpectation, nested, number, number_result, spec_number, spec_string, string, text_result,
};
use crate::text::{debug_quoted, debug_text, eq_ignore_ascii_case, joined, same_ignoring_ascii_case, same_text};

verus! {

/// A comparison verdict as plain values: `Ok(Ok(()))` matches, `Ok(Err(_))`
/// is a known mismatch or failure, `Err(_)` is absent or unsupported evidence.
pub type SpecVerdict = Result<Result<(), Seq<char>>, Seq<char>>;

pub open spec fn verdict_view(v: Result<Result<(), String>, String>) -> SpecVerdict {
    match v {
        Ok(Ok(())) => Ok(Ok(())),
        Ok(Err(f)) => Ok(Err(f@)),
        Err(e) => Err(e@),
    }
}

/// Status of one required check against the provider rows.
pub enum CheckStatus {
    Satisfied,
    Missing,
    Failed(Seq<char>),
    Unknown(Seq<char>),
}

pub open spec fn duplicate_check_message() -> Seq<char> {
    "Duplicate check identity in provider collection"@
}

pub open spec fn missing_checks_message() -> Seq<char> {
    "One or more required checks are missing, pending, skipped or otherwise unverified"@
}

pub open spec fn foreign_revision_message() -> Seq<char> {
    "Required check belongs to a different revision, ref or pipeline"@
}

pub open spec fn producer_message(name: Seq<char>) -> Seq<char> {
    "Required check "@ + debug_quoted(name) + " came from an unexpected producer"@
}

pub open spec fn unsuccessful_message(name: Seq<char>) -> Seq<char> {
    "Required check "@ + debug_quoted(name) + " did not succeed"@
}

/// Terminal provider verdicts that are known failures.
pub open spec fn failure_verdict(v: Seq<char>) -> bool {
    v == "failure"@ || v == "failed"@ || v == "cancelled"@ || v == "canceled"@ || v == "timed_out"@
        || v == "startup_failure"@
}

/// Rows named `name`, in order, with their IDs; any row without a valid name,
/// a matching row without a valid ID, or a repeated ID makes it unknown.
pub open spec fn matching_rows(rows: Seq<Json>, name: Seq<char>) -> Result<Seq<(u64, Json)>, Seq<char>>
    decreases rows.len(),
{
    if rows.len() == 0 {
        Ok(Seq::empty())
    } else {
        match matching_rows(rows.drop_last(), name) {
            Err(e) => Err(e),
            Ok(m) => {
                let row = rows.last();
                match spec_string(row, "name"@) {
                    Err(e) => Err(e),
                    Ok(n) => if n != name {
                        Ok(m)
                    } else {
                        match spec_number(row, "id"@) {
                            Err(e) => Err(e),
                            Ok(id) => if exists|k: int| 0 <= k < m.len() && m[k].0 == id {
                                Err(duplicate_check_message())
                            } else {
                                Ok(m.push((id, row)))
                            },
                        }
                    },
                }
            },
        }
    }
}

/// The row with the greatest provider ID (the newest), if any.
pub open spec fn newest(m: Seq<(u64, Json)>) -> Option<(u64, Json)>
    decreases m.len(),
{
    if m.len() == 0 {
        None
    } else {
        match newest(m.drop_last()) {
            None => Some(m.last()),
            Some(best) => if m.last().0 >= best.0 {
                Some(m.last())
            } else {
                Some(best)
            },
        }
    }
}

/// Verdict of the selected (newest) row for a required check.
pub open spec fn row_status(
    provider: CiProvider,
    expected: RunExpectation,
    check: RequiredCheck,
    row: Json,
) -> CheckStatus {
    let github = provider == CiProvider::Github;
    match spec_number(index(row, if github { "app"@ } else { "creator"@ }), "id"@) {
        Err(e) => CheckStatus::Unknown(e),
        Ok(producer) => if producer != check.producer_id {
            CheckStatus::Failed(producer_message(check.name@))
        } else {
            match spec_string(row, if github { "head_sha"@ } else { "sha"@ }) {
                Err(e) => CheckStatus::Unknown(e),
                Ok(revision) => if !same_ignoring_ascii_case(revision, expected.revision@) {
                    CheckStatus::Failed(foreign_revision_message())
                } else {
                    match ref_and_pipeline(github, expected, row) {
                        Err(e) => CheckStatus::Unknown(e),
                        Ok(false) => CheckStatus::Failed(foreign_revision_message()),
                        Ok(true) => match spec_string(row, "status"@) {
                            Err(e) => CheckStatus::Unknown(e),
                            Ok(status) => if github {
                                if status != "completed"@ || index(row, "conclusion"@) is Null {
                                    CheckStatus::Missing
                                } else {
                                    match spec_string(row, "conclusion"@) {
                                        Err(e) => CheckStatus::Unknown(e),
                                        Ok(v) => verdict_status(check, v),
                                    }
                                }
                            } else {
                                verdict_status(check, status)
                            },
                        },
                    }
                },
            }
        },
    }
}

/// For GitLab, whether the row's ref and (when present) pipeline match.
pub open spec fn ref_and_pipeline(github: bool, expected: RunExpectation, row: Json) -> Result<bool, Seq<char>> {
    if github {
        Ok(true)
    } else {
        match spec_string(row, "ref"@) {
            Err(e) => Err(e),
            Ok(r) => if r != expected.reference@ {
                Ok(false)
            } else if crate::json::member(row, "pipeline_id"@) is Some {
                match spec_number(row, "pipeline_id"@) {
                    Err(e) => Err(e),
                    Ok(p) => Ok(p == expected.run_id),
                }
            } else {
                Ok(true)
            },
        }
    }
}

pub open spec fn verdict_status(check: RequiredCheck, v: Seq<char>) -> CheckStatus {
    if v == "success"@ {
        CheckStatus::Satisfied
    } else if failure_verdict(v) {
        CheckStatus::Failed(unsuccessful_message(check.name@))
    } else {
        CheckStatus::Missing
    }
}

/// Status of one required check: selected by newest provider identity, never
/// by success or producer, so newer pending or foreign rows cannot fall back
/// to older green evidence.
pub open spec fn check_status(
    provider: CiProvider,
    expected: RunExpectation,
    check: RequiredCheck,
    rows: Seq<Json>,
) -> CheckStatus {
    match matching_rows(rows, check.name@) {
        Err(e) => CheckStatus::Unknown(e),
        Ok(m) => match newest(m) {
            None => CheckStatus::Missing,
            Some(selected) => row_status(provider, expected, check, selected.1),
        },
    }
}

/// `compare_one` over a list of checks: the first failure or unknown row ends
/// the comparison; missing checks make the result unknown.
pub open spec fn compare_all(
    provider: CiProvider,
    expected: RunExpectation,
    checks: Seq<RequiredCheck>,
    rows: Seq<Json>,
    missing: bool,
) -> SpecVerdict
    decreases checks.len(),
{
    if checks.len() == 0 {
        if missing {
            Err(missing_checks_message())
        } else {
            Ok(Ok(()))
        }
    } else {
        match check_status(provider, expected, checks[0], rows) {
            CheckStatus::Unknown(e) => Err(e),
            CheckStatus::Failed(f) => Ok(Err(f)),
            CheckStatus::Missing => compare_all(provider, expected, checks.drop_first(), rows, true),
            CheckStatus::Satisfied => compare_all(provider, expected, checks.drop_first(), rows, missing),
        }
    }
}

/// The verdict of one check on its own.
pub open spec fn single_verdict(
    provider: CiProvider,
    expected: RunExpectation,
    check: RequiredCheck,
    rows: Seq<Json>,
) -> SpecVerdict {
    compare_all(provider, expected, seq![check], rows, false)
}

/// `compare`: any known failure wins; otherwise the last uncertainty;
/// otherwise a match.
pub open spec fn compare_spec(
    provider: CiProvider,
    expected: RunExpectation,
    checks: Seq<RequiredCheck>,
    rows: Seq<Json>,
) -> SpecVerdict
    decreases checks.len(),
{
    if checks.len() == 0 {
        Ok(Ok(()))
    } else {
        match single_verdict(provider, expected, checks[0], rows) {
            Ok(Err(f)) => Ok(Err(f)),
            Err(reason) => match compare_spec(provider, expected, checks.drop_first(), rows) {
                Ok(Ok(())) => Err(reason),
                other => other,
            },
            Ok(Ok(())) => compare_spec(provider, expected, checks.drop_first(), rows),
        }
    }
}

/// A match stays a match only when no earlier check was unknown.
pub open spec fn with_uncertainty(v: SpecVerdict, u: Option<Seq<char>>) -> SpecVerdict {
    match u {
        Some(reason) => if v is Ok && v->Ok_0 is Ok {
            Err(reason)
        } else {
            v
        },
        None => v,
    }
}

pub open spec fn opt_view(u: Option<String>) -> Option<Seq<char>> {
    match u {
        Some(s) => Some(s@),
        None => None,
    }
}

/// Exec counterpart of [`CheckStatus`].
pub enum CheckState {
    Satisfied,
    Missing,
    Failed(String),
    Unknown(String),
}

pub open spec fn state_view(s: CheckState) -> CheckStatus {
    match s {
        CheckState::Satisfied => CheckStatus::Satisfied,
        CheckState::Missing => CheckStatus::Missing,
        CheckState::Failed(f) => CheckStatus::Failed(f@),
        CheckState::Unknown(e) => CheckStatus::Unknown(e@),
    }
}

fn message(text: &str) -> (r: String)
    ensures
        r@ == text@,
{
    text.to_owned()
}

fn named_message(prefix: &str, name: &str, suffix: &str) -> (r: String)
    ensures
        r@ == prefix@ + debug_quoted(name@) + suffix@,
{
    let quoted = debug_text(name);
    let mut r = joined(prefix, quoted.as_str());
    r.append(suffix);
    r
}

fn verdict_state(check: &RequiredCheck, v: &str) -> (r: CheckState)
    ensures
        state_view(r) == verdict_status(*check, v@),
{
    proof {
        reveal_strlit("success");
        reveal_strlit("failure");
        reveal_strlit("failed");
        reveal_strlit("cancelled");
        reveal_strlit("canceled");
        reveal_strlit("timed_out");
        reveal_strlit("startup_failure");
        reveal_strlit("Required check ");
        reveal_strlit(" did not succeed");
    }
    if same_text(v, "success") {
        CheckState::Satisfied
    } else if same_text(v, "failure") || same_text(v, "failed") || same_text(v, "cancelled")
        || same_text(v, "canceled") || same_text(v, "timed_out") || same_text(v, "startup_failure") {
        CheckState::Failed(named_message("Required check ", check.name.as_str(), " did not succeed"))
    } else {
        CheckState::Missing
    }
}

fn ref_and_pipeline_matches(github: bool, expected: &RunExpectation, row: &Json) -> (r: Result<bool, String>)
    ensures
        match r {
            Ok(b) => ref_and_pipeline(github, *expected, *row) == Ok::<bool, Seq<char>>(b),
            Err(e) => ref_and_pipeline(github, *expected, *row) == Err::<bool, Seq<char>>(e@),
        },
{
    if github {
        return Ok(true);
    }
    let reference = match string(row, "ref") {
        Ok(r) => r,
        Err(e) => return Err(e),
    };
    if !same_text(reference.as_str(), expected.reference.as_str()) {
        return Ok(false);
    }
    if row.get("pipeline_id").is_some() {
        match number(row, "pipeline_id") {
            Ok(p) => Ok(p == expected.run_id),
            Err(e) => Err(e),
        }
    } else {
        Ok(true)
    }
}

/// The verdict of the selected row.
fn selected_row_state(
    provider: CiProvider,
    expected: &RunExpectation,
    check: &RequiredCheck,
    row: &Json,
) -> (r: CheckState)
    ensures
        state_view(r) == row_status(provider, *expected, *check, *row),
{
    proof {
        reveal_strlit("app");
        reveal_strlit("creator");
        reveal_strlit("id");
        reveal_strlit("head_sha");
        reveal_strlit("sha");
        reveal_strlit("status");
        reveal_strlit("completed");
        reveal_strlit("conclusion");
        reveal_strlit("Required check ");
        reveal_strlit(" came from an unexpected producer");
        reveal_strlit("Required check belongs to a different revision, ref or pipeline");
    }
    let github = provider == CiProvider::Github;
    let null = Json::Null;
    let producer_holder = nested(row, if github { "app" } else { "creator" }, &null);
    let producer = match number(producer_holder, "id") {
        Ok(p) => p,
        Err(e) => return CheckState::Unknown(e),
    };
    if producer != check.producer_id {
        return CheckState::Failed(named_message("Required check ", check.name.as_str(), " came from an unexpected producer"));
    }
    let revision = match string(row, if github { "head_sha" } else { "sha" }) {
        Ok(r) => r,
        Err(e) => return CheckState::Unknown(e),
    };
    if !eq_ignore_ascii_case(revision.as_str(), expected.revision.as_str()) {
        return CheckState::Failed(message("Required check belongs to a different revision, ref or pipeline"));
    }
    match ref_and_pipeline_matches(github, expected, row) {
        Err(e) => return CheckState::Unknown(e),
        Ok(false) => return CheckState::Failed(message("Required check belongs to a different revision, ref or pipeline")),
        Ok(true) => {},
    }
    let status = match string(row, "status") {
        Ok(s) => s,
        Err(e) => return CheckState::Unknown(e),
    };
    if github {
        let conclusion_null = match row.get("conclusion") {
            Some(c) => c.is_null(),
            None => true,
        };
        if !same_text(status.as_str(), "completed") || conclusion_null {
            return CheckState::Missing;
        }
        match string(row, "conclusion") {
            Ok(v) => verdict_state(check, v.as_str()),
            Err(e) => CheckState::Unknown(e),
        }
    } else {
        verdict_state(check, status.as_str())
    }
}

/// Status of one required check against all rows.
pub fn check_state(
    provider: CiProvider,
    expected: &RunExpectation,
    check: &RequiredCheck,
    rows: &[Json],
) -> (r: CheckState)
    ensures
        state_view(r) == check_status(provider, *expected, *check, rows@),
{
    proof {
        reveal_strlit("name");
        reveal_strlit("id");
        reveal_strlit("Duplicate check identity in provider collection");
    }
    let mut ids: Vec<u64> = Vec::new();
    let mut best: Option<(u64, usize)> = None;
    let ghost mut m: Seq<(u64, Json)> = Seq::empty();
    let mut i: usize = 0;
    while i < rows.len()
        invariant
            i <= rows@.len(),
            matching_rows(rows@.subrange(0, i as int), check.name@) == Ok::<Seq<(u64, Json)>, Seq<char>>(m),
            ids@.len() == m.len(),
            forall|k: int| 0 <= k < m.len() ==> #[trigger] ids@[k] == m[k].0,
            match best {
                None => newest(m) is None,
                Some((id, idx)) => idx < rows@.len() && newest(m) == Some((id, rows@[idx as int])),
            },
        decreases rows.len() - i,
    {
        let row = &rows[i];
        assert(rows@.subrange(0, i + 1).drop_last() =~= rows@.subrange(0, i as int));
        assert(rows@.subrange(0, i + 1).last() == rows@[i as int]);
        let ghost prefix = rows@.subrange(0, i + 1);
        let name = match string(row, "name") {
            Ok(n) => n,
            Err(e) => {
                proof { lemma_matching_rows_error(rows@, check.name@, i as int + 1); }
                return CheckState::Unknown(e);
            },
        };
        if same_text(name.as_str(), check.name.as_str()) {
            let id = match number(row, "id") {
                Ok(id) => id,
                Err(e) => {
                    proof { lemma_matching_rows_error(rows@, check.name@, i as int + 1); }
                    return CheckState::Unknown(e);
                },
            };
            let mut k: usize = 0;
            while k < ids.len()
                invariant
                    k <= ids@.len(),
                    forall|j: int| 0 <= j < k ==> ids@[j] != id,
                    i < rows@.len(),
                    ids@.len() == m.len(),
                    forall|q: int| 0 <= q < m.len() ==> #[trigger] ids@[q] == m[q].0,
                    matching_rows(rows@.subrange(0, i as int), check.name@) == Ok::<Seq<(u64, Json)>, Seq<char>>(m),
                    rows@.subrange(0, i + 1).drop_last() == rows@.subrange(0, i as int),
                    rows@.subrange(0, i + 1).last() == rows@[i as int],
                    spec_string(rows@[i as int], "name"@) == Ok::<Seq<char>, Seq<char>>(check.name@),
                    spec_number(rows@[i as int], "id"@) == Ok::<u64, Seq<char>>(id),
                decreases ids.len() - k,
            {
                if ids[k] == id {
                    proof {
                        assert(m[k as int].0 == id);
                        lemma_matching_rows_error(rows@, check.name@, i as int + 1);
                    }
                    return CheckState::Unknown(message("Duplicate check identity in provider collection"));
                }
                k = k + 1;
            }
            proof {
                assert forall|j: int| 0 <= j < m.len() implies m[j].0 != id by {
                    assert(ids@[j] == m[j].0);
                }
            }
            let ghost old_m = m;
            proof {
                m = m.push((id, rows@[i as int]));
                assert(m.drop_last() =~= old_m);
            }
            ids.push(id);
            best = match best {
                None => Some((id, i)),
                Some((b, idx)) => if id >= b { Some((id, i)) } else { Some((b, idx)) },
            };
        }
        i = i + 1;
    }
    assert(rows@.subrange(0, rows@.len() as int) =~= rows@);
    match best {
        None => CheckState::Missing,
        Some((_, idx)) => selected_row_state(provider, expected, check, &rows[idx]),
    }
}

/// Once the scan of a prefix is unknown, the scan of every longer prefix is too.
proof fn lemma_matching_rows_error(rows: Seq<Json>, name: Seq<char>, n: int)
    requires
        0 <= n <= rows.len(),
        matching_rows(rows.subrange(0, n), name) is Err,
    ensures
        matching_rows(rows, name) == matching_rows(rows.subrange(0, n), name),
    decreases rows.len() - n,
{
    if n < rows.len() {
        assert(rows.subrange(0, n + 1).drop_last() =~= rows.subrange(0, n));
        lemma_matching_rows_error(rows, name, n + 1);
    } else {
        assert(rows.subrange(0, n) =~= rows);
    }
}

/// Compares each listed check in order; see [`compare_all`].
pub fn compare_one(
    provider: CiProvider,
    expected: &RunExpectation,
    required: &[RequiredCheck],
    rows: &[Json],
) -> (r: Result<Result<(), String>, String>)
    ensures
        verdict_view(r) == compare_all(provider, *expected, required@, rows@, false),
{
    proof {
        reveal_strlit("One or more required checks are missing, pending, skipped or otherwise unverified");
    }
    let mut missing = false;
    let mut i: usize = 0;
    assert(required@.subrange(0, required@.len() as int) =~= required@);
    while i < required.len()
        invariant
            i <= required@.len(),
            compare_all(provider, *expected, required@, rows@, false) == compare_all(
                provider,
                *expected,
                required@.subrange(i as int, required@.len() as int),
                rows@,
                missing,
            ),
        decreases required.len() - i,
    {
        let ghost rest = required@.subrange(i as int, required@.len() as int);
        assert(rest[0] == required@[i as int]);
        assert(rest.drop_first() =~= required@.subrange(i + 1, required@.len() as int));
        match check_state(provider, expected, &required[i], rows) {
            CheckState::Failed(f) => return Ok(Err(f)),
            CheckState::Unknown(e) => return Err(e),
            CheckState::Missing => missing = true,
            CheckState::Satisfied => {},
        }
        i = i + 1;
    }
    if missing {
        Err(message("One or more required checks are missing, pending, skipped or otherwise unverified"))
    } else {
        Ok(Ok(()))
    }
}

/// Compares every required check independently: any known failure is
/// returned even when another check is unknown; otherwise the last unknown
/// reason; otherwise a match.
pub fn compare(
    provider: CiProvider,
    expected: &RunExpectation,
    required: &[RequiredCheck],
    rows: &[Json],
) -> (r: Result<Result<(), String>, String>)
    ensures
        verdict_view(r) == compare_spec(provider, *expected, required@, rows@),
{
    let mut uncertainty: Option<String> = None;
    let mut i: usize = 0;
    assert(required@.subrange(0, required@.len() as int) =~= required@);
    while i < required.len()
        invariant
            i <= required@.len(),
            compare_spec(provider, *expected, required@, rows@) == with_uncertainty(
                compare_spec(provider, *expected, required@.subrange(i as int, required@.len() as int), rows@),
                opt_view(uncertainty),
            ),
        decreases required.len() - i,
    {
        let ghost rest = required@.subrange(i as int, required@.len() as int);
        assert(rest[0] == required@[i as int]);
        assert(rest.drop_first() =~= required@.subrange(i + 1, required@.len() as int));
        let one = vec![required[i].copy()];
        assert(one@ =~= seq![required@[i as int]]);
        match compare_one(provider, expected, one.as_slice(), rows) {
            Ok(Err(failure)) => return Ok(Err(failure)),
            Err(reason) => uncertainty = Some(reason),
            Ok(Ok(())) => {},
        }
        i = i + 1;
    }
    match uncertainty {
        Some(reason) => Err(reason),
        None => Ok(Ok(())),
    }
}

/// A known failure of any required check is never hidden by another check
/// being unknown or missing.
pub proof fn lemma_failure_is_not_hidden(
    provider: CiProvider,
    expected: RunExpectation,
    checks: Seq<RequiredCheck>,
    rows: Seq<Json>,
    k: int,
)
    requires
        0 <= k < checks.len(),
        check_status(provider, expected, checks[k], rows) is Failed,
    ensures
        compare_spec(provider, expected, checks, rows) is Ok,
        compare_spec(provider, expected, checks, rows)->Ok_0 is Err,
    decreases checks.len(),
{
    reveal_with_fuel(compare_all, 2);
    if k > 0 {
        lemma_failure_is_not_hidden(provider, expected, checks.drop_first(), rows, k - 1);
    }
}

/// A verdict that names a known failure.
pub open spec fn is_failure(v: SpecVerdict) -> bool {
    v is Ok && v->Ok_0 is Err
}

/// The comparison of several required checks, judged one by one: a known
/// failure of any check fails it, so a malformed, pending or missing check
/// never hides another check's failure; without a failure, any check that
/// cannot be judged leaves it unknown; otherwise it matches.
pub proof fn lemma_compare_three_way(provider: CiProvider, expected: RunExpectation, checks: Seq<RequiredCheck>, rows: Seq<Json>)
    ensures
        (exists|k: int| 0 <= k < checks.len() && is_failure(#[trigger] single_verdict(provider, expected, checks[k], rows)))
            ==> is_failure(compare_spec(provider, expected, checks, rows)),
        !(exists|k: int| 0 <= k < checks.len() && is_failure(#[trigger] single_verdict(provider, expected, checks[k], rows)))
            && (exists|k: int| 0 <= k < checks.len() && (#[trigger] single_verdict(provider, expected, checks[k], rows)) is Err)
            ==> compare_spec(provider, expected, checks, rows) is Err,
        !(exists|k: int| 0 <= k < checks.len() && is_failure(#[trigger] single_verdict(provider, expected, checks[k], rows)))
            && !(exists|k: int| 0 <= k < checks.len() && (#[trigger] single_verdict(provider, expected, checks[k], rows)) is Err)
            ==> compare_spec(provider, expected, checks, rows) == Ok::<Result<(), Seq<char>>, Seq<char>>(Ok(())),
    decreases checks.len(),
{
    if checks.len() > 0 {
        let tail = checks.drop_first();
        lemma_compare_three_way(provider, expected, tail, rows);
        let first = single_verdict(provider, expected, checks[0], rows);
        assert forall|k: int| 0 <= k < tail.len() implies #[trigger] single_verdict(provider, expected, tail[k], rows)
            == single_verdict(provider, expected, checks[k + 1], rows) by {
            assert(tail[k] == checks[k + 1]);
        }
        if exists|k: int| 0 <= k < checks.len() && is_failure(#[trigger] single_verdict(provider, expected, checks[k], rows)) {
            let k = choose|k: int| 0 <= k < checks.len() && is_failure(#[trigger] single_verdict(provider, expected, checks[k], rows));
            if k > 0 {
                assert(is_failure(single_verdict(provider, expected, tail[k - 1], rows)));
            }
        } else if exists|k: int| 0 <= k < checks.len() && (#[trigger] single_verdict(provider, expected, checks[k], rows)) is Err {
            let k = choose|k: int| 0 <= k < checks.len() && (#[trigger] single_verdict(provider, expected, checks[k], rows)) is Err;
            assert forall|j: int| 0 <= j < tail.len() implies !is_failure(#[trigger] single_verdict(provider, expected, tail[j], rows)) by {
                assert(!is_failure(single_verdict(provider, expected, checks[j + 1], rows)));
            }
            if k > 0 {
                assert(single_verdict(provider, expected, tail[k - 1], rows) is Err);
            }
        } else {
            assert forall|j: int| 0 <= j < tail.len() implies !is_failure(#[trigger] single_verdict(provider, expected, tail[j], rows))
                && !(single_verdict(provider, expected, tail[j], rows) is Err) by {
                assert(!is_failure(single_verdict(provider, expected, checks[j + 1], rows)));
                assert(!(single_verdict(provider, expected, checks[j + 1], rows) is Err));
            }
            assert(!is_failure(first) && !(first is Err));
        }
    }
}

} // verus!
