//! Comparison of reviewed merge-protection policy with provider settings.
use vstd::prelude::*;
use crate::json::{Json, index, member, spec_as_bool};
use crate::policy::{AccessPrincipal, GitlabBranchPolicy, RequiredCheck};
use crate::remote::checks::{SpecVerdict, verdict_view};
use crate::remote::run::{nested, number, number_result, spec_number, spec_string, string, text_result};
use crate::text::{copy_string, joined, owned, same_text};

verus! {

pub open spec fn boolean_message(key: Seq<char>) -> Seq<char> {
    "Provider did not expose boolean "@ + key
}

pub open spec fn collection_message(key: Seq<char>) -> Seq<char> {
    "Provider did not expose collection "@ + key
}

/// `value[key].as_bool()`, or the diagnostic naming the key.
pub open spec fn spec_boolean(v: Json, key: Seq<char>) -> Result<bool, Seq<char>> {
    match spec_as_bool(index(v, key)) {
        Some(b) => Ok(b),
        None => Err(boolean_message(key)),
    }
}

/// `value[key].as_array()`, or the diagnostic naming the key.
pub open spec fn spec_array(v: Json, key: Seq<char>) -> Result<Seq<Json>, Seq<char>> {
    match index(v, key) {
        Json::Array(items) => Ok(items@),
        _ => Err(collection_message(key)),
    }
}

/// A boolean member.
pub fn boolean(value: &Json, key: &str) -> (r: Result<bool, String>)
    ensures
        match r {
            Ok(b) => spec_boolean(*value, key@) == Ok::<bool, Seq<char>>(b),
            Err(e) => spec_boolean(*value, key@) == Err::<bool, Seq<char>>(e@),
        },
{
    let found = match value.get(key) {
        Some(x) => x.as_bool(),
        None => None,
    };
    match found {
        Some(b) => Ok(b),
        None => {
            proof { reveal_strlit("Provider did not expose boolean "); }
            Err(joined("Provider did not expose boolean ", key))
        },
    }
}

/// A collection member.
pub fn array<'a>(value: &'a Json, key: &str) -> (r: Result<&'a Vec<Json>, String>)
    ensures
        match r {
            Ok(v) => spec_array(*value, key@) == Ok::<Seq<Json>, Seq<char>>(v@),
            Err(e) => spec_array(*value, key@) == Err::<Seq<Json>, Seq<char>>(e@),
        },
{
    match value.get(key) {
        Some(Json::Array(items)) => Ok(items),
        _ => {
            proof { reveal_strlit("Provider did not expose collection "); }
            Err(joined("Provider did not expose collection ", key))
        },
    }
}

/// A (name, producer) pair read from one policy row.
pub open spec fn check_entry(row: Json, name_key: Seq<char>, producer_key: Seq<char>) -> Result<(Seq<char>, u64), Seq<char>> {
    match spec_string(row, name_key) {
        Err(e) => Err(e),
        Ok(n) => match spec_number(row, producer_key) {
            Err(e) => Err(e),
            Ok(p) => Ok((n, p)),
        },
    }
}

pub open spec fn check_entries(rows: Seq<Json>, name_key: Seq<char>, producer_key: Seq<char>) -> Result<Seq<(Seq<char>, u64)>, Seq<char>>
    decreases rows.len(),
{
    if rows.len() == 0 {
        Ok(Seq::empty())
    } else {
        match check_entries(rows.drop_last(), name_key, producer_key) {
            Err(e) => Err(e),
            Ok(es) => match check_entry(rows.last(), name_key, producer_key) {
                Err(e) => Err(e),
                Ok(x) => Ok(es.push(x)),
            },
        }
    }
}

/// The producer-bound checks that a provider policy lists, in order.
pub open spec fn required_entries(v: Json, name_key: Seq<char>, producer_key: Seq<char>) -> Result<Seq<(Seq<char>, u64)>, Seq<char>> {
    match v {
        Json::Array(rows) => check_entries(rows@, name_key, producer_key),
        _ => Err("Required-check policy is unavailable"@),
    }
}

/// The set of producer-bound checks that a provider policy requires.
pub open spec fn spec_required_checks(v: Json, name_key: Seq<char>, producer_key: Seq<char>) -> Result<Set<(Seq<char>, u64)>, Seq<char>> {
    match required_entries(v, name_key, producer_key) {
        Ok(es) => Ok(es.to_set()),
        Err(e) => Err(e),
    }
}

/// The reviewed checks as a set of (name, producer) pairs.
pub open spec fn check_set(checks: Seq<RequiredCheck>) -> Set<(Seq<char>, u64)> {
    checks.map_values(|c: RequiredCheck| (c.name@, c.producer_id)).to_set()
}

pub open spec fn entries_view(v: Seq<(String, u64)>) -> Seq<(Seq<char>, u64)> {
    v.map_values(|e: (String, u64)| (e.0@, e.1))
}

/// The producer-bound checks of a provider policy collection.
pub fn required_checks(value: &Json, name_key: &str, producer_key: &str) -> (r: Result<Vec<(String, u64)>, String>)
    ensures
        match r {
            Ok(v) => required_entries(*value, name_key@, producer_key@) == Ok::<Seq<(Seq<char>, u64)>, Seq<char>>(entries_view(v@)),
            Err(e) => required_entries(*value, name_key@, producer_key@) == Err::<Seq<(Seq<char>, u64)>, Seq<char>>(e@),
        },
        match r {
            Ok(v) => spec_required_checks(*value, name_key@, producer_key@) == Ok::<Set<(Seq<char>, u64)>, Seq<char>>(entries_view(v@).to_set()),
            Err(e) => spec_required_checks(*value, name_key@, producer_key@) == Err::<Set<(Seq<char>, u64)>, Seq<char>>(e@),
        },
{
    let rows = match value {
        Json::Array(rows) => rows,
        _ => {
            proof { reveal_strlit("Required-check policy is unavailable"); }
            return Err(owned("Required-check policy is unavailable"));
        },
    };
    let mut out: Vec<(String, u64)> = Vec::new();
    let mut i: usize = 0;
    assert(entries_view(out@) =~= Seq::empty());
    while i < rows.len()
        invariant
            *value == Json::Array(*rows),
            i <= rows@.len(),
            check_entries(rows@.subrange(0, i as int), name_key@, producer_key@) == Ok::<Seq<(Seq<char>, u64)>, Seq<char>>(entries_view(out@)),
        decreases rows.len() - i,
    {
        assert(rows@.subrange(0, i + 1).drop_last() =~= rows@.subrange(0, i as int));
        assert(rows@.subrange(0, i + 1).last() == rows@[i as int]);
        let name = match string(&rows[i], name_key) {
            Ok(n) => n,
            Err(e) => {
                proof { lemma_entries_error(rows@, name_key@, producer_key@, i + 1); }
                return Err(e);
            },
        };
        let producer = match number(&rows[i], producer_key) {
            Ok(p) => p,
            Err(e) => {
                proof { lemma_entries_error(rows@, name_key@, producer_key@, i + 1); }
                return Err(e);
            },
        };
        let ghost before = out@;
        out.push((name, producer));
        assert(entries_view(out@) =~= entries_view(before).push((name@, producer)));
        i = i + 1;
    }
    assert(rows@.subrange(0, rows@.len() as int) =~= rows@);
    Ok(out)
}

/// Once reading a prefix of policy rows fails, reading all of them fails alike.
proof fn lemma_entries_error(rows: Seq<Json>, name_key: Seq<char>, producer_key: Seq<char>, n: int)
    requires
        0 <= n <= rows.len(),
        check_entries(rows.subrange(0, n), name_key, producer_key) is Err,
    ensures
        check_entries(rows, name_key, producer_key) == check_entries(rows.subrange(0, n), name_key, producer_key),
    decreases rows.len() - n,
{
    if n < rows.len() {
        assert(rows.subrange(0, n + 1).drop_last() =~= rows.subrange(0, n));
        lemma_entries_error(rows, name_key, producer_key, n + 1);
    } else {
        assert(rows.subrange(0, n) =~= rows);
    }
}

pub open spec fn check_pairs(checks: Seq<RequiredCheck>) -> Seq<(Seq<char>, u64)> {
    checks.map_values(|c: RequiredCheck| (c.name@, c.producer_id))
}

fn pair_in_checks(name: &String, producer: u64, expected: &[RequiredCheck]) -> (r: bool)
    ensures
        r == check_pairs(expected@).contains((name@, producer)),
{
    let mut j: usize = 0;
    while j < expected.len()
        invariant
            j <= expected@.len(),
            forall|k: int| 0 <= k < j ==> check_pairs(expected@)[k] != (name@, producer),
        decreases expected.len() - j,
    {
        if same_text(name.as_str(), expected[j].name.as_str()) && producer == expected[j].producer_id {
            assert(check_pairs(expected@)[j as int] == (name@, producer));
            return true;
        }
        j = j + 1;
    }
    false
}

fn check_in_entries(check: &RequiredCheck, actual: &Vec<(String, u64)>) -> (r: bool)
    ensures
        r == entries_view(actual@).contains((check.name@, check.producer_id)),
{
    let mut j: usize = 0;
    while j < actual.len()
        invariant
            j <= actual@.len(),
            forall|k: int| 0 <= k < j ==> entries_view(actual@)[k] != (check.name@, check.producer_id),
        decreases actual.len() - j,
    {
        if same_text(actual[j].0.as_str(), check.name.as_str()) && actual[j].1 == check.producer_id {
            assert(entries_view(actual@)[j as int] == (check.name@, check.producer_id));
            return true;
        }
        j = j + 1;
    }
    false
}

/// Whether provider entries and reviewed checks are the same set of pairs.
pub fn same_check_set(actual: &Vec<(String, u64)>, expected: &[RequiredCheck]) -> (r: bool)
    ensures
        r == (entries_view(actual@).to_set() == check_set(expected@)),
{
    let ghost a = entries_view(actual@);
    let ghost b = check_pairs(expected@);
    let mut i: usize = 0;
    while i < actual.len()
        invariant
            a == entries_view(actual@),
            b == check_pairs(expected@),
            i <= actual@.len(),
            forall|k: int| 0 <= k < i ==> b.contains(#[trigger] a[k]),
        decreases actual.len() - i,
    {
        if !pair_in_checks(&actual[i].0, actual[i].1, expected) {
            proof {
                assert(a[i as int] == (actual@[i as int].0@, actual@[i as int].1));
                assert(a.to_set().contains(a[i as int]));
                assert(!b.to_set().contains(a[i as int]));
            }
            return false;
        }
        i = i + 1;
    }
    let mut j: usize = 0;
    while j < expected.len()
        invariant
            a == entries_view(actual@),
            b == check_pairs(expected@),
            forall|k: int| 0 <= k < a.len() ==> b.contains(#[trigger] a[k]),
            j <= expected@.len(),
            forall|k: int| 0 <= k < j ==> a.contains(#[trigger] b[k]),
        decreases expected.len() - j,
    {
        if !check_in_entries(&expected[j], actual) {
            proof {
                assert(b[j as int] == (expected@[j as int].name@, expected@[j as int].producer_id));
                assert(b.to_set().contains(b[j as int]));
                assert(!a.to_set().contains(b[j as int]));
            }
            return false;
        }
        j = j + 1;
    }
    proof {
        assert forall|x: (Seq<char>, u64)| a.to_set().contains(x) <==> b.to_set().contains(x) by {
            if a.contains(x) {
                let k = choose|k: int| 0 <= k < a.len() && a[k] == x;
                assert(b.contains(a[k]));
            }
            if b.contains(x) {
                let k = choose|k: int| 0 <= k < b.len() && b[k] == x;
                assert(a.contains(b[k]));
            }
        }
        assert(a.to_set() =~= b.to_set());
    }
    true
}

pub open spec fn bypass_message() -> Seq<char> {
    "Reviewed branch protection drift: force-push/deletion or administrator bypass is allowed"@
}

pub open spec fn reviews_message() -> Seq<char> {
    "Reviewed branch protection drift: pull requests are not required"@
}

pub open spec fn pr_bypass_message() -> Seq<char> {
    "Reviewed branch protection drift: pull-request bypass is configured"@
}

pub open spec fn unenforced_message() -> Seq<char> {
    "Required status checks are not enforced"@
}

pub open spec fn check_drift_message() -> Seq<char> {
    "Required check names, producer bindings or up-to-date policy drifted"@
}

/// Pull-request bypass allowances: any nonempty user, team or app list is drift.
pub open spec fn bypass_verdict(bypass: Option<Json>) -> SpecVerdict {
    match bypass {
        None => Ok(Ok(())),
        Some(b) => match spec_array(b, "users"@) {
            Err(e) => Err(e),
            Ok(users) => if users.len() > 0 {
                Ok(Err(pr_bypass_message()))
            } else {
                match spec_array(b, "teams"@) {
                    Err(e) => Err(e),
                    Ok(teams) => if teams.len() > 0 {
                        Ok(Err(pr_bypass_message()))
                    } else {
                        match spec_array(b, "apps"@) {
                            Err(e) => Err(e),
                            Ok(apps) => if apps.len() > 0 {
                                Ok(Err(pr_bypass_message()))
                            } else {
                                Ok(Ok(()))
                            },
                        }
                    },
                }
            },
        },
    }
}

/// Required status checks: enforced, bound to the reviewed producers, with the
/// reviewed up-to-date setting.
pub open spec fn status_verdict(v: Json, strict: bool, checks: Seq<RequiredCheck>) -> SpecVerdict {
    let status = index(v, "required_status_checks"@);
    if status is Null {
        Ok(Err(unenforced_message()))
    } else {
        match spec_required_checks(index(status, "checks"@), "context"@, "app_id"@) {
            Err(e) => Err(e),
            Ok(actual) => if actual != check_set(checks) {
                Ok(Err(check_drift_message()))
            } else {
                match spec_boolean(status, "strict"@) {
                    Err(e) => Err(e),
                    Ok(b) => if b != strict {
                        Ok(Err(check_drift_message()))
                    } else {
                        Ok(Ok(()))
                    },
                }
            },
        }
    }
}

/// Classic GitHub branch protection compared with the reviewed policy.
pub open spec fn github_branch_spec(v: Json, strict: bool, checks: Seq<RequiredCheck>) -> SpecVerdict {
    match spec_boolean(index(v, "allow_force_pushes"@), "enabled"@) {
        Err(e) => Err(e),
        Ok(true) => Ok(Err(bypass_message())),
        Ok(false) => match spec_boolean(index(v, "allow_deletions"@), "enabled"@) {
            Err(e) => Err(e),
            Ok(true) => Ok(Err(bypass_message())),
            Ok(false) => match spec_boolean(index(v, "enforce_admins"@), "enabled"@) {
                Err(e) => Err(e),
                Ok(false) => Ok(Err(bypass_message())),
                Ok(true) => {
                    let reviews = index(v, "required_pull_request_reviews"@);
                    if !(reviews is Object) {
                        Ok(Err(reviews_message()))
                    } else {
                        match bypass_verdict(member(reviews, "bypass_pull_request_allowances"@)) {
                            Ok(Ok(())) => status_verdict(v, strict, checks),
                            other => other,
                        }
                    }
                },
            },
        },
    }
}

pub(crate) fn failed_with(text: &str) -> (r: Result<Result<(), String>, String>)
    ensures
        verdict_view(r) == Ok::<Result<(), Seq<char>>, Seq<char>>(Err(text@)),
{
    Ok(Err(owned(text)))
}

fn bypass_allowances(bypass: Option<&Json>) -> (r: Result<Result<(), String>, String>)
    ensures
        verdict_view(r) == bypass_verdict(match bypass { Some(b) => Some(*b), None => None }),
{
    proof {
        reveal_strlit("users");
        reveal_strlit("teams");
        reveal_strlit("apps");
        reveal_strlit("Reviewed branch protection drift: pull-request bypass is configured");
    }
    let b = match bypass {
        None => return Ok(Ok(())),
        Some(b) => b,
    };
    match array(b, "users") {
        Err(e) => return Err(e),
        Ok(v) => if v.len() > 0 {
            return failed_with("Reviewed branch protection drift: pull-request bypass is configured");
        },
    }
    match array(b, "teams") {
        Err(e) => return Err(e),
        Ok(v) => if v.len() > 0 {
            return failed_with("Reviewed branch protection drift: pull-request bypass is configured");
        },
    }
    match array(b, "apps") {
        Err(e) => Err(e),
        Ok(v) => if v.len() > 0 {
            failed_with("Reviewed branch protection drift: pull-request bypass is configured")
        } else {
            Ok(Ok(()))
        },
    }
}

fn status_checks(value: &Json, strict: bool, checks: &[RequiredCheck]) -> (r: Result<Result<(), String>, String>)
    ensures
        verdict_view(r) == status_verdict(*value, strict, checks@),
{
    proof {
        reveal_strlit("required_status_checks");
        reveal_strlit("checks");
        reveal_strlit("context");
        reveal_strlit("app_id");
        reveal_strlit("strict");
        reveal_strlit("Required status checks are not enforced");
        reveal_strlit("Required check names, producer bindings or up-to-date policy drifted");
    }
    let null = Json::Null;
    let status = nested(value, "required_status_checks", &null);
    if status.is_null() {
        return failed_with("Required status checks are not enforced");
    }
    let listed = nested(status, "checks", &null);
    let actual = match required_checks(listed, "context", "app_id") {
        Ok(a) => a,
        Err(e) => return Err(e),
    };
    if !same_check_set(&actual, checks) {
        return failed_with("Required check names, producer bindings or up-to-date policy drifted");
    }
    match boolean(status, "strict") {
        Err(e) => Err(e),
        Ok(b) => if b != strict {
            failed_with("Required check names, producer bindings or up-to-date policy drifted")
        } else {
            Ok(Ok(()))
        },
    }
}

/// Compares classic GitHub branch protection with the reviewed policy:
/// force-push, deletion and administrator bypass must be off, pull requests
/// required without bypass allowances, and the producer-bound status checks
/// and up-to-date setting must equal the reviewed ones.
pub fn github_branch(value: &Json, strict: bool, checks: &[RequiredCheck]) -> (r: Result<Result<(), String>, String>)
    ensures
        verdict_view(r) == github_branch_spec(*value, strict, checks@),
{
    proof {
        reveal_strlit("allow_force_pushes");
        reveal_strlit("allow_deletions");
        reveal_strlit("enforce_admins");
        reveal_strlit("enabled");
        reveal_strlit("required_pull_request_reviews");
        reveal_strlit("bypass_pull_request_allowances");
        reveal_strlit("Reviewed branch protection drift: force-push/deletion or administrator bypass is allowed");
        reveal_strlit("Reviewed branch protection drift: pull requests are not required");
    }
    let null = Json::Null;
    match boolean(nested(value, "allow_force_pushes", &null), "enabled") {
        Err(e) => return Err(e),
        Ok(true) => return failed_with("Reviewed branch protection drift: force-push/deletion or administrator bypass is allowed"),
        Ok(false) => {},
    }
    match boolean(nested(value, "allow_deletions", &null), "enabled") {
        Err(e) => return Err(e),
        Ok(true) => return failed_with("Reviewed branch protection drift: force-push/deletion or administrator bypass is allowed"),
        Ok(false) => {},
    }
    match boolean(nested(value, "enforce_admins", &null), "enabled") {
        Err(e) => return Err(e),
        Ok(false) => return failed_with("Reviewed branch protection drift: force-push/deletion or administrator bypass is allowed"),
        Ok(true) => {},
    }
    let reviews = nested(value, "required_pull_request_reviews", &null);
    if !reviews.is_object() {
        return failed_with("Reviewed branch protection drift: pull requests are not required");
    }
    match bypass_allowances(reviews.get("bypass_pull_request_allowances")) {
        Ok(Ok(())) => status_checks(value, strict, checks),
        other => other,
    }
}

/// GitLab's star wildcard: `*` matches any text (including `/`); every other
/// character matches itself. No regex or shell syntax is interpreted.
pub open spec fn glob(pattern: Seq<char>, text: Seq<char>) -> bool
    decreases pattern.len() + text.len(),
{
    if pattern.len() == 0 {
        text.len() == 0
    } else if pattern.last() == '*' {
        glob(pattern.drop_last(), text) || (text.len() > 0 && glob(pattern, text.drop_last()))
    } else {
        text.len() > 0 && text.last() == pattern.last() && glob(pattern.drop_last(), text.drop_last())
    }
}

/// Whether a protected-branch rule name matches the branch.
pub fn matches_branch(pattern: &str, branch: &str) -> (r: bool)
    ensures
        r == glob(pattern@, branch@),
{
    let text = crate::text::chars_of(branch);
    let pat = crate::text::chars_of(pattern);
    let n = text.len();
    let mut matches: Vec<bool> = Vec::new();
    matches.push(true);
    let mut i: usize = 0;
    while i < n
        invariant
            n == text@.len(),
            i <= n,
            matches@.len() == i + 1,
            forall|k: int| 0 <= k <= i ==> #[trigger] matches@[k] == (k == 0),
        decreases n - i,
    {
        matches.push(false);
        i = i + 1;
    }
    proof {
        assert forall|k: int| 0 <= k <= n implies #[trigger] matches@[k] == glob(pat@.subrange(0, 0), text@.subrange(0, k)) by {
            assert(pat@.subrange(0, 0).len() == 0);
        }
    }
    let mut p: usize = 0;
    while p < pat.len()
        invariant
            n == text@.len(),
            p <= pat@.len(),
            matches@.len() == n + 1,
            forall|k: int| 0 <= k <= n ==> #[trigger] matches@[k] == glob(pat@.subrange(0, p as int), text@.subrange(0, k)),
        decreases pat.len() - p,
    {
        let ch = pat[p];
        let ghost before = matches@;
        let ghost prefix = pat@.subrange(0, p as int);
        let ghost next = pat@.subrange(0, p + 1);
        assert(next.drop_last() =~= prefix);
        assert(next.last() == ch);
        if ch == '*' {
            let mut j: usize = 0;
            proof {
                assert(text@.subrange(0, 0).len() == 0);
                assert(glob(next, text@.subrange(0, 0)) == glob(prefix, text@.subrange(0, 0)));
            }
            while j < n
                invariant
                    n == text@.len(),
                    matches@.len() == n + 1,
                    j <= n,
                    next.len() > 0,
                    next.drop_last() == prefix,
                    next.last() == '*',
                    forall|k: int| 0 <= k <= j ==> #[trigger] matches@[k] == glob(next, text@.subrange(0, k)),
                    forall|k: int| j < k <= n ==> #[trigger] matches@[k] == glob(prefix, text@.subrange(0, k)),
                decreases n - j,
            {
                let idx = j + 1;
                let prior = matches[j];
                let here = matches[idx];
                proof {
                    let t = text@.subrange(0, idx as int);
                    assert(t.drop_last() =~= text@.subrange(0, j as int));
                    assert(glob(next, t) == (glob(prefix, t) || (t.len() > 0 && glob(next, t.drop_last()))));
                }
                matches.set(idx, here || prior);
                j = idx;
            }
        } else {
            let mut i: usize = n;
            while i >= 1
                invariant
                    n == text@.len(),
                    matches@.len() == n + 1,
                    i <= n,
                    next.len() > 0,
                    next.drop_last() == prefix,
                    next.last() == ch,
                    ch != '*',
                    forall|k: int| 0 <= k <= i ==> #[trigger] matches@[k] == glob(prefix, text@.subrange(0, k)),
                    forall|k: int| i < k <= n ==> #[trigger] matches@[k] == glob(next, text@.subrange(0, k)),
                decreases i,
            {
                let prior = matches[i - 1];
                proof {
                    let t = text@.subrange(0, i as int);
                    assert(t.drop_last() =~= text@.subrange(0, i - 1));
                    assert(t.last() == text@[i - 1]);
                    assert(glob(next, t) == (t.len() > 0 && t.last() == ch && glob(prefix, t.drop_last())));
                }
                matches.set(i, prior && text[i - 1] == ch);
                i = i - 1;
            }
            proof {
                assert(text@.subrange(0, 0).len() == 0);
                assert(!glob(next, text@.subrange(0, 0)));
            }
            matches.set(0, false);
        }
        p = p + 1;
    }
    assert(pat@.subrange(0, pat@.len() as int) =~= pat@);
    assert(text@.subrange(0, n as int) =~= text@);
    matches[n]
}

pub open spec fn present(row: Json, key: Seq<char>) -> bool {
    !(index(row, key) is Null)
}

/// The principal named by one access-level row: exactly one specific identity
/// key, or a role level when none is present.
pub open spec fn principal_of(row: Json) -> Result<AccessPrincipal, Seq<char>> {
    let u = present(row, "user_id"@);
    let g = present(row, "group_id"@);
    let d = present(row, "deploy_key_id"@);
    let m = present(row, "member_role_id"@);
    let count = (if u { 1int } else { 0 }) + (if g { 1int } else { 0 }) + (if d { 1int } else { 0 })
        + (if m { 1int } else { 0 });
    if count == 0 {
        match crate::json::spec_as_u64(index(row, "access_level"@)) {
            Some(n) => Ok(AccessPrincipal::Role(n)),
            None => Err("Missing access level"@),
        }
    } else if count > 1 {
        Err("Ambiguous protected-branch principal"@)
    } else if u {
        match spec_number(row, "user_id"@) {
            Ok(n) => Ok(AccessPrincipal::User(n)),
            Err(e) => Err(e),
        }
    } else if g {
        match spec_number(row, "group_id"@) {
            Ok(n) => Ok(AccessPrincipal::Group(n)),
            Err(e) => Err(e),
        }
    } else if d {
        match spec_number(row, "deploy_key_id"@) {
            Ok(n) => Ok(AccessPrincipal::DeployKey(n)),
            Err(e) => Err(e),
        }
    } else {
        match spec_number(row, "member_role_id"@) {
            Ok(n) => Ok(AccessPrincipal::MemberRole(n)),
            Err(e) => Err(e),
        }
    }
}

pub open spec fn principal_list(rows: Seq<Json>) -> Result<Seq<AccessPrincipal>, Seq<char>>
    decreases rows.len(),
{
    if rows.len() == 0 {
        Ok(Seq::empty())
    } else {
        match principal_list(rows.drop_last()) {
            Err(e) => Err(e),
            Ok(ps) => match principal_of(rows.last()) {
                Err(e) => Err(e),
                Ok(p) => if ps.contains(p) {
                    Err("Duplicate protected-branch principal"@)
                } else {
                    Ok(ps.push(p))
                },
            },
        }
    }
}

/// The distinct principals of an access-level collection; an empty policy is
/// unverified.
pub open spec fn spec_principals(rows: Seq<Json>) -> Result<Set<AccessPrincipal>, Seq<char>> {
    match principal_list(rows) {
        Err(e) => Err(e),
        Ok(ps) => if ps.len() == 0 {
            Err("Empty protected-branch access policy is unverified"@)
        } else {
            Ok(ps.to_set())
        },
    }
}

fn is_present(row: &Json, key: &str) -> (r: bool)
    ensures
        r == present(*row, key@),
{
    match row.get(key) {
        Some(v) => !v.is_null(),
        None => false,
    }
}

fn principal(row: &Json) -> (r: Result<AccessPrincipal, String>)
    ensures
        match r {
            Ok(p) => principal_of(*row) == Ok::<AccessPrincipal, Seq<char>>(p),
            Err(e) => principal_of(*row) == Err::<AccessPrincipal, Seq<char>>(e@),
        },
{
    proof {
        reveal_strlit("user_id");
        reveal_strlit("group_id");
        reveal_strlit("deploy_key_id");
        reveal_strlit("member_role_id");
        reveal_strlit("access_level");
        reveal_strlit("Missing access level");
        reveal_strlit("Ambiguous protected-branch principal");
    }
    let u = is_present(row, "user_id");
    let g = is_present(row, "group_id");
    let d = is_present(row, "deploy_key_id");
    let m = is_present(row, "member_role_id");
    let count: u8 = (if u { 1 } else { 0 }) + (if g { 1 } else { 0 }) + (if d { 1 } else { 0 }) + (if m { 1 } else { 0 });
    if count == 0 {
        let level = match row.get("access_level") {
            Some(v) => v.as_u64(),
            None => None,
        };
        match level {
            Some(n) => Ok(AccessPrincipal::Role(n)),
            None => Err(owned("Missing access level")),
        }
    } else if count > 1 {
        Err(owned("Ambiguous protected-branch principal"))
    } else if u {
        match number(row, "user_id") {
            Ok(n) => Ok(AccessPrincipal::User(n)),
            Err(e) => Err(e),
        }
    } else if g {
        match number(row, "group_id") {
            Ok(n) => Ok(AccessPrincipal::Group(n)),
            Err(e) => Err(e),
        }
    } else if d {
        match number(row, "deploy_key_id") {
            Ok(n) => Ok(AccessPrincipal::DeployKey(n)),
            Err(e) => Err(e),
        }
    } else {
        match number(row, "member_role_id") {
            Ok(n) => Ok(AccessPrincipal::MemberRole(n)),
            Err(e) => Err(e),
        }
    }
}

/// Once a prefix of access rows is invalid, the whole collection is invalid alike.
proof fn lemma_principals_error(rows: Seq<Json>, n: int)
    requires
        0 <= n <= rows.len(),
        principal_list(rows.subrange(0, n)) is Err,
    ensures
        principal_list(rows) == principal_list(rows.subrange(0, n)),
    decreases rows.len() - n,
{
    if n < rows.len() {
        assert(rows.subrange(0, n + 1).drop_last() =~= rows.subrange(0, n));
        lemma_principals_error(rows, n + 1);
    } else {
        assert(rows.subrange(0, n) =~= rows);
    }
}

/// The distinct principals of one GitLab access-level collection.
pub fn principals(rows: &[Json]) -> (r: Result<Vec<AccessPrincipal>, String>)
    ensures
        match r {
            Ok(v) => spec_principals(rows@) == Ok::<Set<AccessPrincipal>, Seq<char>>(v@.to_set()),
            Err(e) => spec_principals(rows@) == Err::<Set<AccessPrincipal>, Seq<char>>(e@),
        },
{
    proof {
        reveal_strlit("Duplicate protected-branch principal");
        reveal_strlit("Empty protected-branch access policy is unverified");
    }
    let mut result: Vec<AccessPrincipal> = Vec::new();
    let mut i: usize = 0;
    while i < rows.len()
        invariant
            i <= rows@.len(),
            principal_list(rows@.subrange(0, i as int)) == Ok::<Seq<AccessPrincipal>, Seq<char>>(result@),
        decreases rows.len() - i,
    {
        assert(rows@.subrange(0, i + 1).drop_last() =~= rows@.subrange(0, i as int));
        assert(rows@.subrange(0, i + 1).last() == rows@[i as int]);
        let p = match principal(&rows[i]) {
            Ok(p) => p,
            Err(e) => {
                proof { lemma_principals_error(rows@, i + 1); }
                return Err(e);
            },
        };
        let mut k: usize = 0;
        while k < result.len()
            invariant
                k <= result@.len(),
                forall|j: int| 0 <= j < k ==> result@[j] != p,
                i < rows@.len(),
                principal_list(rows@.subrange(0, i as int)) == Ok::<Seq<AccessPrincipal>, Seq<char>>(result@),
                rows@.subrange(0, i + 1).drop_last() == rows@.subrange(0, i as int),
                rows@.subrange(0, i + 1).last() == rows@[i as int],
                principal_of(rows@[i as int]) == Ok::<AccessPrincipal, Seq<char>>(p),
            decreases result.len() - k,
        {
            if result[k] == p {
                proof {
                    assert(result@.contains(p));
                    lemma_principals_error(rows@, i + 1);
                }
                return Err(owned("Duplicate protected-branch principal"));
            }
            k = k + 1;
        }
        assert(!result@.contains(p));
        result.push(p);
        i = i + 1;
    }
    assert(rows@.subrange(0, rows@.len() as int) =~= rows@);
    if result.len() == 0 {
        return Err(owned("Empty protected-branch access policy is unverified"));
    }
    Ok(result)
}

/// Whether two principal lists hold the same set of principals.
pub fn same_principals(a: &Vec<AccessPrincipal>, b: &Vec<AccessPrincipal>) -> (r: bool)
    ensures
        r == (a@.to_set() == b@.to_set()),
{
    let mut i: usize = 0;
    while i < a.len()
        invariant
            i <= a@.len(),
            forall|k: int| 0 <= k < i ==> b@.contains(#[trigger] a@[k]),
        decreases a.len() - i,
    {
        let mut j: usize = 0;
        let mut found = false;
        while j < b.len() && !found
            invariant
                i < a@.len(),
                j <= b@.len(),
                found ==> b@.contains(a@[i as int]),
                !found ==> forall|q: int| 0 <= q < j ==> b@[q] != a@[i as int],
            decreases b.len() - j,
        {
            if b[j] == a[i] {
                found = true;
            }
            j = j + 1;
        }
        if !found {
            proof {
                assert(a@.to_set().contains(a@[i as int]));
                assert(!b@.to_set().contains(a@[i as int]));
            }
            return false;
        }
        i = i + 1;
    }
    let mut j: usize = 0;
    while j < b.len()
        invariant
            forall|k: int| 0 <= k < a@.len() ==> b@.contains(#[trigger] a@[k]),
            j <= b@.len(),
            forall|k: int| 0 <= k < j ==> a@.contains(#[trigger] b@[k]),
        decreases b.len() - j,
    {
        let mut i: usize = 0;
        let mut found = false;
        while i < a.len() && !found
            invariant
                j < b@.len(),
                i <= a@.len(),
                found ==> a@.contains(b@[j as int]),
                !found ==> forall|q: int| 0 <= q < i ==> a@[q] != b@[j as int],
            decreases a.len() - i,
        {
            if a[i] == b[j] {
                found = true;
            }
            i = i + 1;
        }
        if !found {
            proof {
                assert(b@.to_set().contains(b@[j as int]));
                assert(!a@.to_set().contains(b@[j as int]));
            }
            return false;
        }
        j = j + 1;
    }
    proof {
        assert forall|x: AccessPrincipal| a@.to_set().contains(x) <==> b@.to_set().contains(x) by {
            if a@.contains(x) {
                let k = choose|k: int| 0 <= k < a@.len() && a@[k] == x;
                assert(b@.contains(a@[k]));
            }
            if b@.contains(x) {
                let k = choose|k: int| 0 <= k < b@.len() && b@[k] == x;
                assert(a@.contains(b@[k]));
            }
        }
        assert(a@.to_set() =~= b@.to_set());
    }
    true
}

pub open spec fn merge_policy_message() -> Seq<char> {
    "GitLab merge policy no longer requires successful non-skipped pipelines"@
}

pub open spec fn unreviewed_rule_message() -> Seq<char> {
    "An unreviewed protected-branch rule now applies to trunk"@
}

pub open spec fn force_push_message() -> Seq<char> {
    "A matching protected-branch rule permits force-push"@
}

pub open spec fn access_drift_message() -> Seq<char> {
    "Protected-branch push or merge access drifted from reviewed identities"@
}

pub open spec fn missing_rules_message() -> Seq<char> {
    "Reviewed protected-branch rules are missing or no longer match trunk"@
}

/// The first reviewed rule with the given name.
pub open spec fn find_policy(expected: Seq<GitlabBranchPolicy>, name: Seq<char>) -> Option<GitlabBranchPolicy>
    decreases expected.len(),
{
    if expected.len() == 0 {
        None
    } else if expected[0].name@ == name {
        Some(expected[0])
    } else {
        find_policy(expected.drop_first(), name)
    }
}

/// Whether a matching rule's push or merge principals differ from the reviewed ones.
pub open spec fn access_drift(rule: Json, wanted: GitlabBranchPolicy) -> Result<bool, Seq<char>> {
    match spec_array(rule, "push_access_levels"@) {
        Err(e) => Err(e),
        Ok(push) => match spec_principals(push) {
            Err(e) => Err(e),
            Ok(ps) => if ps != wanted.push@.to_set() {
                Ok(true)
            } else {
                match spec_array(rule, "merge_access_levels"@) {
                    Err(e) => Err(e),
                    Ok(merge) => match spec_principals(merge) {
                        Err(e) => Err(e),
                        Ok(ms) => Ok(ms != wanted.merge@.to_set()),
                    },
                }
            },
        },
    }
}

pub type RuleScan = Result<Result<Seq<Seq<char>>, Seq<char>>, Seq<char>>;

/// One observed protection rule; rules not matching the branch are ignored.
pub open spec fn rule_step(branch: Seq<char>, expected: Seq<GitlabBranchPolicy>, rule: Json, found: Seq<Seq<char>>) -> RuleScan {
    match spec_string(rule, "name"@) {
        Err(e) => Err(e),
        Ok(name) => if !glob(name, branch) {
            Ok(Ok(found))
        } else if found.contains(name) {
            Err("Duplicate matching protection rule"@)
        } else {
            match find_policy(expected, name) {
                None => Ok(Err(unreviewed_rule_message())),
                Some(wanted) => match spec_boolean(rule, "allow_force_push"@) {
                    Err(e) => Err(e),
                    Ok(true) => Ok(Err(force_push_message())),
                    Ok(false) => match access_drift(rule, wanted) {
                        Err(e) => Err(e),
                        Ok(true) => Ok(Err(access_drift_message())),
                        Ok(false) => Ok(Ok(found.push(name))),
                    },
                },
            }
        },
    }
}

/// All observed rules in order, stopping at the first failure or unknown row.
pub open spec fn rules_scan(branch: Seq<char>, expected: Seq<GitlabBranchPolicy>, observed: Seq<Json>) -> RuleScan
    decreases observed.len(),
{
    if observed.len() == 0 {
        Ok(Ok(Seq::empty()))
    } else {
        match rules_scan(branch, expected, observed.drop_last()) {
            Ok(Ok(found)) => rule_step(branch, expected, observed.last(), found),
            other => other,
        }
    }
}

pub open spec fn policy_names(expected: Seq<GitlabBranchPolicy>) -> Seq<Seq<char>> {
    expected.map_values(|r: GitlabBranchPolicy| r.name@)
}

pub open spec fn text_views(v: Seq<String>) -> Seq<Seq<char>> {
    v.map_values(|s: String| s@)
}

/// GitLab merge settings and every protected-branch rule matching the branch,
/// compared with the reviewed rules.
pub open spec fn gitlab_spec(project: Json, branch: Seq<char>, expected: Seq<GitlabBranchPolicy>, observed: Seq<Json>) -> SpecVerdict {
    match spec_boolean(project, "only_allow_merge_if_pipeline_succeeds"@) {
        Err(e) => Err(e),
        Ok(false) => Ok(Err(merge_policy_message())),
        Ok(true) => match spec_boolean(project, "allow_merge_on_skipped_pipeline"@) {
            Err(e) => Err(e),
            Ok(true) => Ok(Err(merge_policy_message())),
            Ok(false) => match rules_scan(branch, expected, observed) {
                Err(e) => Err(e),
                Ok(Err(f)) => Ok(Err(f)),
                Ok(Ok(found)) => if found.to_set() != policy_names(expected).to_set() {
                    Ok(Err(missing_rules_message()))
                } else {
                    Ok(Ok(()))
                },
            },
        },
    }
}

pub(crate) fn text_in(v: &Vec<String>, s: &str) -> (r: bool)
    ensures
        r == text_views(v@).contains(s@),
{
    let mut i: usize = 0;
    while i < v.len()
        invariant
            i <= v@.len(),
            forall|k: int| 0 <= k < i ==> text_views(v@)[k] != s@,
        decreases v.len() - i,
    {
        if same_text(v[i].as_str(), s) {
            assert(text_views(v@)[i as int] == s@);
            return true;
        }
        i = i + 1;
    }
    false
}

fn find_reviewed<'a>(expected: &'a [GitlabBranchPolicy], name: &str) -> (r: Option<&'a GitlabBranchPolicy>)
    ensures
        match r {
            Some(w) => find_policy(expected@, name@) == Some(*w),
            None => find_policy(expected@, name@) is None,
        },
{
    let mut i: usize = 0;
    assert(expected@.subrange(0, expected@.len() as int) =~= expected@);
    while i < expected.len()
        invariant
            i <= expected@.len(),
            find_policy(expected@, name@) == find_policy(expected@.subrange(i as int, expected@.len() as int), name@),
        decreases expected.len() - i,
    {
        let ghost rest = expected@.subrange(i as int, expected@.len() as int);
        assert(rest[0] == expected@[i as int]);
        assert(rest.drop_first() =~= expected@.subrange(i + 1, expected@.len() as int));
        if same_text(expected[i].name.as_str(), name) {
            return Some(&expected[i]);
        }
        i = i + 1;
    }
    None
}

fn drifted(rule: &Json, wanted: &GitlabBranchPolicy) -> (r: Result<bool, String>)
    ensures
        match r {
            Ok(b) => access_drift(*rule, *wanted) == Ok::<bool, Seq<char>>(b),
            Err(e) => access_drift(*rule, *wanted) == Err::<bool, Seq<char>>(e@),
        },
{
    proof {
        reveal_strlit("push_access_levels");
        reveal_strlit("merge_access_levels");
    }
    let push = match array(rule, "push_access_levels") {
        Ok(p) => p,
        Err(e) => return Err(e),
    };
    let ps = match principals(push.as_slice()) {
        Ok(p) => p,
        Err(e) => return Err(e),
    };
    if !same_principals(&ps, &wanted.push) {
        return Ok(true);
    }
    let merge = match array(rule, "merge_access_levels") {
        Ok(m) => m,
        Err(e) => return Err(e),
    };
    let ms = match principals(merge.as_slice()) {
        Ok(m) => m,
        Err(e) => return Err(e),
    };
    Ok(!same_principals(&ms, &wanted.merge))
}

/// Whether the names found equal the reviewed rule names, as sets.
fn same_names(found: &Vec<String>, expected: &[GitlabBranchPolicy]) -> (r: bool)
    ensures
        r == (text_views(found@).to_set() == policy_names(expected@).to_set()),
{
    let ghost a = text_views(found@);
    let ghost b = policy_names(expected@);
    let mut i: usize = 0;
    while i < found.len()
        invariant
            a == text_views(found@),
            b == policy_names(expected@),
            i <= found@.len(),
            forall|k: int| 0 <= k < i ==> b.contains(#[trigger] a[k]),
        decreases found.len() - i,
    {
        match find_reviewed(expected, found[i].as_str()) {
            Some(_) => {
                proof { lemma_find_policy_contains(expected@, a[i as int]); }
            },
            None => {
                proof {
                    lemma_find_policy_absent(expected@, a[i as int]);
                    assert(a.to_set().contains(a[i as int]));
                }
                return false;
            },
        }
        i = i + 1;
    }
    let mut j: usize = 0;
    while j < expected.len()
        invariant
            a == text_views(found@),
            b == policy_names(expected@),
            forall|k: int| 0 <= k < a.len() ==> b.contains(#[trigger] a[k]),
            j <= expected@.len(),
            forall|k: int| 0 <= k < j ==> a.contains(#[trigger] b[k]),
        decreases expected.len() - j,
    {
        if !text_in(found, expected[j].name.as_str()) {
            proof {
                assert(b[j as int] == expected@[j as int].name@);
                assert(b.to_set().contains(b[j as int]));
            }
            return false;
        }
        assert(b[j as int] == expected@[j as int].name@);
        j = j + 1;
    }
    proof {
        assert forall|x: Seq<char>| a.to_set().contains(x) <==> b.to_set().contains(x) by {
            if a.contains(x) {
                let k = choose|k: int| 0 <= k < a.len() && a[k] == x;
                assert(b.contains(a[k]));
            }
            if b.contains(x) {
                let k = choose|k: int| 0 <= k < b.len() && b[k] == x;
                assert(a.contains(b[k]));
            }
        }
        assert(a.to_set() =~= b.to_set());
    }
    true
}

proof fn lemma_find_policy_contains(expected: Seq<GitlabBranchPolicy>, name: Seq<char>)
    requires
        find_policy(expected, name) is Some,
    ensures
        policy_names(expected).contains(name),
    decreases expected.len(),
{
    if expected[0].name@ == name {
        assert(policy_names(expected)[0] == name);
    } else {
        lemma_find_policy_contains(expected.drop_first(), name);
        let k = choose|k: int| 0 <= k < policy_names(expected.drop_first()).len() && policy_names(expected.drop_first())[k] == name;
        assert(policy_names(expected)[k + 1] == name);
    }
}

proof fn lemma_find_policy_absent(expected: Seq<GitlabBranchPolicy>, name: Seq<char>)
    requires
        find_policy(expected, name) is None,
    ensures
        !policy_names(expected).contains(name),
    decreases expected.len(),
{
    if expected.len() > 0 {
        lemma_find_policy_absent(expected.drop_first(), name);
        assert forall|k: int| 0 <= k < policy_names(expected).len() implies policy_names(expected)[k] != name by {
            if k > 0 {
                assert(policy_names(expected)[k] == policy_names(expected.drop_first())[k - 1]);
            }
        }
    }
}

proof fn lemma_rules_stop(branch: Seq<char>, expected: Seq<GitlabBranchPolicy>, observed: Seq<Json>, n: int)
    requires
        0 <= n <= observed.len(),
        !(rules_scan(branch, expected, observed.subrange(0, n)) is Ok && rules_scan(branch, expected, observed.subrange(0, n))->Ok_0 is Ok),
    ensures
        rules_scan(branch, expected, observed) == rules_scan(branch, expected, observed.subrange(0, n)),
    decreases observed.len() - n,
{
    if n < observed.len() {
        assert(observed.subrange(0, n + 1).drop_last() =~= observed.subrange(0, n));
        lemma_rules_stop(branch, expected, observed, n + 1);
    } else {
        assert(observed.subrange(0, n) =~= observed);
    }
}

/// Compares GitLab merge settings and all protected-branch rules matching the
/// branch (wildcards included) with the reviewed rules.
pub fn gitlab(project: &Json, branch: &str, expected: &[GitlabBranchPolicy], observed: &[Json]) -> (r: Result<Result<(), String>, String>)
    ensures
        verdict_view(r) == gitlab_spec(*project, branch@, expected@, observed@),
{
    proof {
        reveal_strlit("only_allow_merge_if_pipeline_succeeds");
        reveal_strlit("allow_merge_on_skipped_pipeline");
        reveal_strlit("name");
        reveal_strlit("allow_force_push");
        reveal_strlit("Duplicate matching protection rule");
        reveal_strlit("GitLab merge policy no longer requires successful non-skipped pipelines");
        reveal_strlit("An unreviewed protected-branch rule now applies to trunk");
        reveal_strlit("A matching protected-branch rule permits force-push");
        reveal_strlit("Protected-branch push or merge access drifted from reviewed identities");
        reveal_strlit("Reviewed protected-branch rules are missing or no longer match trunk");
    }
    match boolean(project, "only_allow_merge_if_pipeline_succeeds") {
        Err(e) => return Err(e),
        Ok(false) => return failed_with("GitLab merge policy no longer requires successful non-skipped pipelines"),
        Ok(true) => {},
    }
    match boolean(project, "allow_merge_on_skipped_pipeline") {
        Err(e) => return Err(e),
        Ok(true) => return failed_with("GitLab merge policy no longer requires successful non-skipped pipelines"),
        Ok(false) => {},
    }
    let mut found: Vec<String> = Vec::new();
    let mut i: usize = 0;
    proof {
        assert(text_views(found@) =~= Seq::<Seq<char>>::empty());
        assert(observed@.subrange(0, 0) =~= Seq::<Json>::empty());
    }
    while i < observed.len()
        invariant
            i <= observed@.len(),
            spec_boolean(*project, "only_allow_merge_if_pipeline_succeeds"@) == Ok::<bool, Seq<char>>(true),
            spec_boolean(*project, "allow_merge_on_skipped_pipeline"@) == Ok::<bool, Seq<char>>(false),
            rules_scan(branch@, expected@, observed@.subrange(0, i as int)) == Ok::<Result<Seq<Seq<char>>, Seq<char>>, Seq<char>>(Ok(text_views(found@))),
        decreases observed.len() - i,
    {
        let rule = &observed[i];
        proof {
            assert(observed@.subrange(0, i + 1).drop_last() =~= observed@.subrange(0, i as int));
            assert(observed@.subrange(0, i + 1).last() == observed@[i as int]);
        }
        let name = match string(rule, "name") {
            Ok(n) => n,
            Err(e) => {
                proof { lemma_rules_stop(branch@, expected@, observed@, i + 1); }
                return Err(e);
            },
        };
        if matches_branch(name.as_str(), branch) {
            if text_in(&found, name.as_str()) {
                proof { lemma_rules_stop(branch@, expected@, observed@, i + 1); }
                return Err(owned("Duplicate matching protection rule"));
            }
            let wanted = match find_reviewed(expected, name.as_str()) {
                Some(w) => w,
                None => {
                    proof { lemma_rules_stop(branch@, expected@, observed@, i + 1); }
                    return failed_with("An unreviewed protected-branch rule now applies to trunk");
                },
            };
            match boolean(rule, "allow_force_push") {
                Err(e) => {
                    proof { lemma_rules_stop(branch@, expected@, observed@, i + 1); }
                    return Err(e);
                },
                Ok(true) => {
                    proof { lemma_rules_stop(branch@, expected@, observed@, i + 1); }
                    return failed_with("A matching protected-branch rule permits force-push");
                },
                Ok(false) => {},
            }
            match drifted(rule, wanted) {
                Err(e) => {
                    proof { lemma_rules_stop(branch@, expected@, observed@, i + 1); }
                    return Err(e);
                },
                Ok(true) => {
                    proof { lemma_rules_stop(branch@, expected@, observed@, i + 1); }
                    return failed_with("Protected-branch push or merge access drifted from reviewed identities");
                },
                Ok(false) => {},
            }
            let ghost before = found@;
            found.push(name);
            assert(text_views(found@) =~= text_views(before).push(name@));
        }
        i = i + 1;
    }
    assert(observed@.subrange(0, observed@.len() as int) =~= observed@);
    if !same_names(&found, expected) {
        return failed_with("Reviewed protected-branch rules are missing or no longer match trunk");
    }
    Ok(Ok(()))
}

} // verus!
