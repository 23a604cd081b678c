//! Comparison of reviewed GitHub rulesets with the active branch rules and
//! the ruleset details that the provider reports.
use vstd::prelude::*;
use crate::json::{Json, index, json_same, member, spec_as_u64};
use crate::policy::RequiredCheck;
use crate::remote::checks::{SpecVerdict, verdict_view};
use crate::remote::protection::{
    array, boolean, check_set, entries_view, failed_with, required_checks, required_entries,
    same_check_set, spec_array, spec_boolean, text_in, text_views,
};
use crate::remote::run::{nested, number, spec_number, spec_string, string};
use crate::json::same_json;
use crate::text::{owned, same_text};

verus! {

pub open spec fn inactive_message() -> Seq<char> {
    "A reviewed ruleset is no longer active for trunk"@
}

pub open spec fn identity_message() -> Seq<char> {
    "Unexpected or duplicate ruleset identity"@
}

pub open spec fn not_enforcing_message() -> Seq<char> {
    "Reviewed ruleset is not enforcing branch policy"@
}

pub open spec fn bypass_actors_message() -> Seq<char> {
    "Reviewed ruleset permits bypass actors"@
}

pub open spec fn disagree_message() -> Seq<char> {
    "Active branch rules and ruleset details disagree; snapshot is unverified"@
}

pub open spec fn ruleset_strict_message() -> Seq<char> {
    "Ruleset up-to-date policy drifted"@
}

pub open spec fn creation_message() -> Seq<char> {
    "Ruleset does not enforce checks on branch creation"@
}

pub open spec fn incomplete_message() -> Seq<char> {
    "Ruleset detail inventory is incomplete"@
}

pub open spec fn requirements_message() -> Seq<char> {
    "Reviewed ruleset requirements or producer-bound checks drifted"@
}

/// The ruleset identities of the active branch rules, in order.
pub open spec fn ruleset_ids(active: Seq<Json>) -> Result<Seq<u64>, Seq<char>>
    decreases active.len(),
{
    if active.len() == 0 {
        Ok(Seq::empty())
    } else {
        match ruleset_ids(active.drop_last()) {
            Err(e) => Err(e),
            Ok(ids) => match spec_number(active.last(), "ruleset_id"@) {
                Err(e) => Err(e),
                Ok(id) => Ok(ids.push(id)),
            },
        }
    }
}

/// Whether an active branch rule belongs to the ruleset `id`.
pub open spec fn in_ruleset(rule: Json, id: u64) -> bool {
    spec_as_u64(index(rule, "ruleset_id"@)) == Some(id)
}

/// Two rules with the same type and the same parameters.
pub open spec fn rule_same(a: Json, b: Json) -> bool {
    json_same(index(a, "type"@), index(b, "type"@)) && json_same(index(a, "parameters"@), index(b, "parameters"@))
}

/// Some active rule of ruleset `id` has the type and parameters of `rule`.
pub open spec fn matched_in(rule: Json, active: Seq<Json>, id: u64) -> bool {
    exists|j: int| 0 <= j < active.len() && in_ruleset(active[j], id) && rule_same(rule, active[j])
}

/// Some detail rule has the type and parameters of `rule`.
pub open spec fn matched_by(rules: Seq<Json>, rule: Json) -> bool {
    exists|i: int| 0 <= i < rules.len() && rule_same(rules[i], rule)
}

/// The detail's rules and the active rules of ruleset `id` are the same set
/// once each rule is reduced to its type and parameters.
pub open spec fn same_rules(rules: Seq<Json>, active: Seq<Json>, id: u64) -> bool {
    &&& forall|i: int| 0 <= i < rules.len() ==> matched_in(#[trigger] rules[i], active, id)
    &&& forall|j: int| 0 <= j < active.len() && in_ruleset(active[j], id) ==> matched_by(rules, #[trigger] active[j])
}

/// Producer-bound checks seen, rule kinds seen, and whether a status-check
/// policy was seen.
pub type KindState = (Seq<(Seq<char>, u64)>, Seq<Seq<char>>, bool);

pub type KindScan = Result<Result<KindState, Seq<char>>, Seq<char>>;

pub type DetailScan = Result<Result<(Seq<u64>, KindState), Seq<char>>, Seq<char>>;

/// Whether checks may be skipped when a branch is created.
pub open spec fn creation_exempt(parameters: Json) -> Result<bool, Seq<char>> {
    if member(parameters, "do_not_enforce_on_create"@) is Some {
        spec_boolean(parameters, "do_not_enforce_on_create"@)
    } else {
        Ok(false)
    }
}

/// A required-status-checks rule of a reviewed ruleset.
pub open spec fn status_rule(parameters: Json, strict: bool, st: KindState, kind: Seq<char>) -> KindScan {
    match spec_boolean(parameters, "strict_required_status_checks_policy"@) {
        Err(e) => Err(e),
        Ok(b) => if b != strict {
            Ok(Err(ruleset_strict_message()))
        } else {
            match creation_exempt(parameters) {
                Err(e) => Err(e),
                Ok(true) => Ok(Err(creation_message())),
                Ok(false) => match required_entries(index(parameters, "required_status_checks"@), "context"@, "integration_id"@) {
                    Err(e) => Err(e),
                    Ok(cs) => Ok(Ok((st.0 + cs, st.1.push(kind), true))),
                },
            }
        },
    }
}

/// One active branch rule; rules of other rulesets are skipped.
pub open spec fn kind_step(rule: Json, id: u64, strict: bool, st: KindState) -> KindScan {
    if !in_ruleset(rule, id) {
        Ok(Ok(st))
    } else {
        match spec_string(rule, "type"@) {
            Err(e) => Err(e),
            Ok(kind) => if kind == "required_status_checks"@ {
                status_rule(index(rule, "parameters"@), strict, st, kind)
            } else {
                Ok(Ok((st.0, st.1.push(kind), st.2)))
            },
        }
    }
}

/// The active rules of ruleset `id`, in order, stopping at the first failure.
pub open spec fn kinds_scan(active: Seq<Json>, id: u64, strict: bool, st: KindState) -> KindScan
    decreases active.len(),
{
    if active.len() == 0 {
        Ok(Ok(st))
    } else {
        match kinds_scan(active.drop_last(), id, strict, st) {
            Ok(Ok(s)) => kind_step(active.last(), id, strict, s),
            other => other,
        }
    }
}

/// A ruleset is enforcing on branches.
pub open spec fn enforcing(detail: Json) -> Result<bool, Seq<char>> {
    match spec_string(detail, "enforcement"@) {
        Err(e) => Err(e),
        Ok(s) => if s != "active"@ {
            Ok(false)
        } else {
            match spec_string(detail, "target"@) {
                Err(e) => Err(e),
                Ok(t) => Ok(t == "branch"@),
            }
        },
    }
}

/// One ruleset detail, checked against the reviewed identities and the active
/// branch rules of that ruleset.
pub open spec fn detail_step(detail: Json, ids: Seq<u64>, strict: bool, active: Seq<Json>, found: Seq<u64>, st: KindState) -> DetailScan {
    match spec_number(detail, "id"@) {
        Err(e) => Err(e),
        Ok(id) => if !ids.contains(id) || found.contains(id) {
            Err(identity_message())
        } else {
            match enforcing(detail) {
                Err(e) => Err(e),
                Ok(false) => Ok(Err(not_enforcing_message())),
                Ok(true) => match spec_array(detail, "bypass_actors"@) {
                    Err(e) => Err(e),
                    Ok(actors) => if actors.len() > 0 {
                        Ok(Err(bypass_actors_message()))
                    } else {
                        match spec_array(detail, "rules"@) {
                            Err(e) => Err(e),
                            Ok(rules) => if !same_rules(rules, active, id) {
                                Err(disagree_message())
                            } else {
                                match kinds_scan(active, id, strict, st) {
                                    Err(e) => Err(e),
                                    Ok(Err(f)) => Ok(Err(f)),
                                    Ok(Ok(s)) => Ok(Ok((found.push(id), s))),
                                }
                            },
                        }
                    },
                },
            }
        },
    }
}

pub open spec fn empty_kinds() -> KindState {
    (Seq::empty(), Seq::empty(), false)
}

/// All ruleset details in order, stopping at the first failure.
pub open spec fn details_scan(details: Seq<Json>, ids: Seq<u64>, strict: bool, active: Seq<Json>) -> DetailScan
    decreases details.len(),
{
    if details.len() == 0 {
        Ok(Ok((Seq::empty(), empty_kinds())))
    } else {
        match details_scan(details.drop_last(), ids, strict, active) {
            Ok(Ok((found, st))) => detail_step(details.last(), ids, strict, active, found, st),
            other => other,
        }
    }
}

/// Reviewed GitHub rulesets compared with the active branch rules and the
/// ruleset details.
pub open spec fn github_rulesets_spec(ids: Seq<u64>, strict: bool, checks: Seq<RequiredCheck>, active: Seq<Json>, details: Seq<Json>) -> SpecVerdict {
    match ruleset_ids(active) {
        Err(e) => Err(e),
        Ok(active_ids) => if exists|k: int| 0 <= k < ids.len() && !active_ids.contains(#[trigger] ids[k]) {
            Ok(Err(inactive_message()))
        } else {
            match details_scan(details, ids, strict, active) {
                Err(e) => Err(e),
                Ok(Err(f)) => Ok(Err(f)),
                Ok(Ok((found, st))) => if found.to_set() != ids.to_set() {
                    Err(incomplete_message())
                } else if !(st.1.contains("pull_request"@) && st.1.contains("non_fast_forward"@) && st.1.contains("deletion"@))
                    || !st.2 || st.0.to_set() != check_set(checks) {
                    Ok(Err(requirements_message()))
                } else {
                    Ok(Ok(()))
                },
            }
        },
    }
}

/// The state of a scan as the executable code holds it.
pub open spec fn kind_view(r: Result<Result<(), String>, String>, st: KindState) -> KindScan {
    match r {
        Ok(Ok(())) => Ok(Ok(st)),
        Ok(Err(f)) => Ok(Err(f@)),
        Err(e) => Err(e@),
    }
}

pub open spec fn detail_view(r: Result<Result<(), String>, String>, found: Seq<u64>, st: KindState) -> DetailScan {
    match r {
        Ok(Ok(())) => Ok(Ok((found, st))),
        Ok(Err(f)) => Ok(Err(f@)),
        Err(e) => Err(e@),
    }
}

proof fn lemma_ids_error(active: Seq<Json>, n: int)
    requires
        0 <= n <= active.len(),
        ruleset_ids(active.subrange(0, n)) is Err,
    ensures
        ruleset_ids(active) == ruleset_ids(active.subrange(0, n)),
    decreases active.len() - n,
{
    if n < active.len() {
        assert(active.subrange(0, n + 1).drop_last() =~= active.subrange(0, n));
        lemma_ids_error(active, n + 1);
    } else {
        assert(active.subrange(0, n) =~= active);
    }
}

proof fn lemma_kinds_stop(active: Seq<Json>, id: u64, strict: bool, st: KindState, n: int)
    requires
        0 <= n <= active.len(),
        !(kinds_scan(active.subrange(0, n), id, strict, st) is Ok && kinds_scan(active.subrange(0, n), id, strict, st)->Ok_0 is Ok),
    ensures
        kinds_scan(active, id, strict, st) == kinds_scan(active.subrange(0, n), id, strict, st),
    decreases active.len() - n,
{
    if n < active.len() {
        assert(active.subrange(0, n + 1).drop_last() =~= active.subrange(0, n));
        lemma_kinds_stop(active, id, strict, st, n + 1);
    } else {
        assert(active.subrange(0, n) =~= active);
    }
}

proof fn lemma_details_stop(details: Seq<Json>, ids: Seq<u64>, strict: bool, active: Seq<Json>, n: int)
    requires
        0 <= n <= details.len(),
        !(details_scan(details.subrange(0, n), ids, strict, active) is Ok
            && details_scan(details.subrange(0, n), ids, strict, active)->Ok_0 is Ok),
    ensures
        details_scan(details, ids, strict, active) == details_scan(details.subrange(0, n), ids, strict, active),
    decreases details.len() - n,
{
    if n < details.len() {
        assert(details.subrange(0, n + 1).drop_last() =~= details.subrange(0, n));
        lemma_details_stop(details, ids, strict, active, n + 1);
    } else {
        assert(details.subrange(0, n) =~= details);
    }
}

fn active_ruleset_ids(active: &[Json]) -> (r: Result<Vec<u64>, String>)
    ensures
        match r {
            Ok(v) => ruleset_ids(active@) == Ok::<Seq<u64>, Seq<char>>(v@),
            Err(e) => ruleset_ids(active@) == Err::<Seq<u64>, Seq<char>>(e@),
        },
{
    proof { reveal_strlit("ruleset_id"); }
    let mut out: Vec<u64> = Vec::new();
    let mut i: usize = 0;
    assert(active@.subrange(0, 0) =~= Seq::<Json>::empty());
    while i < active.len()
        invariant
            i <= active@.len(),
            ruleset_ids(active@.subrange(0, i as int)) == Ok::<Seq<u64>, Seq<char>>(out@),
        decreases active.len() - i,
    {
        assert(active@.subrange(0, i + 1).drop_last() =~= active@.subrange(0, i as int));
        assert(active@.subrange(0, i + 1).last() == active@[i as int]);
        match number(&active[i], "ruleset_id") {
            Ok(id) => out.push(id),
            Err(e) => {
                proof { lemma_ids_error(active@, i + 1); }
                return Err(e);
            },
        }
        i = i + 1;
    }
    assert(active@.subrange(0, active@.len() as int) =~= active@);
    Ok(out)
}

fn u64_in(v: &[u64], x: u64) -> (r: bool)
    ensures
        r == v@.contains(x),
{
    let mut i: usize = 0;
    while i < v.len()
        invariant
            i <= v@.len(),
            forall|k: int| 0 <= k < i ==> v@[k] != x,
        decreases v.len() - i,
    {
        if v[i] == x {
            assert(v@[i as int] == x);
            return true;
        }
        i = i + 1;
    }
    false
}

/// Whether two identity lists hold the same set of identities.
fn same_id_set(a: &[u64], b: &[u64]) -> (r: bool)
    ensures
        r == (a@.to_set() == b@.to_set()),
{
    let mut i: usize = 0;
    while i < a.len()
        invariant
            i <= a@.len(),
            forall|k: int| 0 <= k < i ==> b@.contains(#[trigger] a@[k]),
        decreases a.len() - i,
    {
        if !u64_in(b, a[i]) {
            proof {
                assert(a@.to_set().contains(a@[i as int]));
            }
            return false;
        }
        i = i + 1;
    }
    let mut j: usize = 0;
    while j < b.len()
        invariant
            forall|k: int| 0 <= k < a@.len() ==> b@.contains(#[trigger] a@[k]),
            j <= b@.len(),
            forall|k: int| 0 <= k < j ==> a@.contains(#[trigger] b@[k]),
        decreases b.len() - j,
    {
        if !u64_in(a, b[j]) {
            proof {
                assert(b@.to_set().contains(b@[j as int]));
            }
            return false;
        }
        j = j + 1;
    }
    proof {
        assert forall|x: u64| a@.to_set().contains(x) <==> b@.to_set().contains(x) by {
            if a@.contains(x) {
                let k = choose|k: int| 0 <= k < a@.len() && a@[k] == x;
                assert(b@.contains(a@[k]));
            }
            if b@.contains(x) {
                let k = choose|k: int| 0 <= k < b@.len() && b@[k] == x;
                assert(a@.contains(b@[k]));
            }
        }
        assert(a@.to_set() =~= b@.to_set());
    }
    true
}

fn belongs(rule: &Json, id: u64) -> (r: bool)
    ensures
        r == in_ruleset(*rule, id),
{
    proof { reveal_strlit("ruleset_id"); }
    match rule.get("ruleset_id") {
        Some(x) => match x.as_u64() {
            Some(n) => n == id,
            None => false,
        },
        None => false,
    }
}

fn same_rule(a: &Json, b: &Json) -> (r: bool)
    ensures
        r == rule_same(*a, *b),
{
    proof {
        reveal_strlit("type");
        reveal_strlit("parameters");
    }
    let null = Json::Null;
    same_json(nested(a, "type", &null), nested(b, "type", &null))
        && same_json(nested(a, "parameters", &null), nested(b, "parameters", &null))
}

fn rules_agree(rules: &Vec<Json>, active: &[Json], id: u64) -> (r: bool)
    ensures
        r == same_rules(rules@, active@, id),
{
    let mut i: usize = 0;
    while i < rules.len()
        invariant
            i <= rules@.len(),
            forall|k: int| 0 <= k < i ==> matched_in(#[trigger] rules@[k], active@, id),
        decreases rules.len() - i,
    {
        let mut j: usize = 0;
        let mut hit = false;
        while j < active.len() && !hit
            invariant
                i < rules@.len(),
                j <= active@.len(),
                hit ==> matched_in(rules@[i as int], active@, id),
                !hit ==> forall|q: int| 0 <= q < j ==> !(in_ruleset(active@[q], id) && rule_same(rules@[i as int], #[trigger] active@[q])),
            decreases active.len() - j,
        {
            if belongs(&active[j], id) && same_rule(&rules[i], &active[j]) {
                hit = true;
            }
            j = j + 1;
        }
        if !hit {
            assert(!matched_in(rules@[i as int], active@, id));
            return false;
        }
        i = i + 1;
    }
    let mut j: usize = 0;
    while j < active.len()
        invariant
            j <= active@.len(),
            forall|k: int| 0 <= k < rules@.len() ==> matched_in(#[trigger] rules@[k], active@, id),
            forall|q: int| 0 <= q < j && in_ruleset(active@[q], id) ==> matched_by(rules@, #[trigger] active@[q]),
        decreases active.len() - j,
    {
        if belongs(&active[j], id) {
            let mut k: usize = 0;
            let mut hit = false;
            while k < rules.len() && !hit
                invariant
                    j < active@.len(),
                    k <= rules@.len(),
                    hit ==> matched_by(rules@, active@[j as int]),
                    !hit ==> forall|q: int| 0 <= q < k ==> !rule_same(#[trigger] rules@[q], active@[j as int]),
                decreases rules.len() - k,
            {
                if same_rule(&rules[k], &active[j]) {
                    hit = true;
                }
                k = k + 1;
            }
            if !hit {
                assert(!matched_by(rules@, active@[j as int]));
                return false;
            }
        }
        j = j + 1;
    }
    true
}

/// One active branch rule folded into the seen checks and kinds.
fn kind_rule(
    rule: &Json,
    id: u64,
    strict: bool,
    observed: &mut Vec<(String, u64)>,
    kinds: &mut Vec<String>,
    seen: &mut bool,
) -> (r: Result<Result<(), String>, String>)
    ensures
        kind_step(*rule, id, strict, (entries_view(old(observed)@), text_views(old(kinds)@), *old(seen)))
            == kind_view(r, (entries_view(final(observed)@), text_views(final(kinds)@), *final(seen))),
{
    proof {
        reveal_strlit("type");
        reveal_strlit("parameters");
        reveal_strlit("required_status_checks");
        reveal_strlit("strict_required_status_checks_policy");
        reveal_strlit("do_not_enforce_on_create");
        reveal_strlit("context");
        reveal_strlit("integration_id");
        reveal_strlit("Ruleset up-to-date policy drifted");
        reveal_strlit("Ruleset does not enforce checks on branch creation");
    }
    if !belongs(rule, id) {
        return Ok(Ok(()));
    }
    let null = Json::Null;
    let kind = match string(rule, "type") {
        Ok(k) => k,
        Err(e) => return Err(e),
    };
    if same_text(kind.as_str(), "required_status_checks") {
        let parameters = nested(rule, "parameters", &null);
        match boolean(parameters, "strict_required_status_checks_policy") {
            Err(e) => return Err(e),
            Ok(b) => if b != strict {
                return failed_with("Ruleset up-to-date policy drifted");
            },
        }
        if parameters.get("do_not_enforce_on_create").is_some() {
            match boolean(parameters, "do_not_enforce_on_create") {
                Err(e) => return Err(e),
                Ok(true) => return failed_with("Ruleset does not enforce checks on branch creation"),
                Ok(false) => {},
            }
        }
        let mut found = match required_checks(nested(parameters, "required_status_checks", &null), "context", "integration_id") {
            Ok(c) => c,
            Err(e) => return Err(e),
        };
        let ghost before = observed@;
        let ghost added = found@;
        observed.append(&mut found);
        assert(entries_view(observed@) =~= entries_view(before) + entries_view(added));
        *seen = true;
    }
    let ghost names = kinds@;
    kinds.push(kind);
    assert(text_views(kinds@) =~= text_views(names).push(kind@));
    Ok(Ok(()))
}

/// The active rules of ruleset `id`, folded into the seen checks and kinds.
fn scan_kinds(
    active: &[Json],
    id: u64,
    strict: bool,
    observed: &mut Vec<(String, u64)>,
    kinds: &mut Vec<String>,
    seen: &mut bool,
) -> (r: Result<Result<(), String>, String>)
    ensures
        kinds_scan(active@, id, strict, (entries_view(old(observed)@), text_views(old(kinds)@), *old(seen)))
            == kind_view(r, (entries_view(final(observed)@), text_views(final(kinds)@), *final(seen))),
{
    let ghost start: KindState = (entries_view(observed@), text_views(kinds@), *seen);
    let mut i: usize = 0;
    assert(active@.subrange(0, 0) =~= Seq::<Json>::empty());
    while i < active.len()
        invariant
            i <= active@.len(),
            start == (entries_view(old(observed)@), text_views(old(kinds)@), *old(seen)),
            kinds_scan(active@.subrange(0, i as int), id, strict, start)
                == Ok::<Result<KindState, Seq<char>>, Seq<char>>(Ok((entries_view(observed@), text_views(kinds@), *seen))),
        decreases active.len() - i,
    {
        assert(active@.subrange(0, i + 1).drop_last() =~= active@.subrange(0, i as int));
        assert(active@.subrange(0, i + 1).last() == active@[i as int]);
        let r = kind_rule(&active[i], id, strict, observed, kinds, seen);
        match r {
            Ok(Ok(())) => {},
            other => {
                proof { lemma_kinds_stop(active@, id, strict, start, i + 1); }
                return other;
            },
        }
        i = i + 1;
    }
    assert(active@.subrange(0, active@.len() as int) =~= active@);
    Ok(Ok(()))
}

/// One ruleset detail: identity, enforcement, bypass actors, agreement with
/// the active rules, then the active rules of that ruleset.
fn check_detail(
    detail: &Json,
    ids: &[u64],
    strict: bool,
    active: &[Json],
    found: &mut Vec<u64>,
    observed: &mut Vec<(String, u64)>,
    kinds: &mut Vec<String>,
    seen: &mut bool,
) -> (r: Result<Result<(), String>, String>)
    ensures
        detail_step(*detail, ids@, strict, active@, old(found)@, (entries_view(old(observed)@), text_views(old(kinds)@), *old(seen)))
            == detail_view(r, final(found)@, (entries_view(final(observed)@), text_views(final(kinds)@), *final(seen))),
{
    proof {
        reveal_strlit("id");
        reveal_strlit("enforcement");
        reveal_strlit("target");
        reveal_strlit("active");
        reveal_strlit("branch");
        reveal_strlit("bypass_actors");
        reveal_strlit("rules");
        reveal_strlit("Unexpected or duplicate ruleset identity");
        reveal_strlit("Reviewed ruleset is not enforcing branch policy");
        reveal_strlit("Reviewed ruleset permits bypass actors");
        reveal_strlit("Active branch rules and ruleset details disagree; snapshot is unverified");
    }
    let id = match number(detail, "id") {
        Ok(n) => n,
        Err(e) => return Err(e),
    };
    if !u64_in(ids, id) || u64_in(found.as_slice(), id) {
        return Err(owned("Unexpected or duplicate ruleset identity"));
    }
    let enforcement = match string(detail, "enforcement") {
        Ok(s) => s,
        Err(e) => return Err(e),
    };
    if !same_text(enforcement.as_str(), "active") {
        return failed_with("Reviewed ruleset is not enforcing branch policy");
    }
    let target = match string(detail, "target") {
        Ok(s) => s,
        Err(e) => return Err(e),
    };
    if !same_text(target.as_str(), "branch") {
        return failed_with("Reviewed ruleset is not enforcing branch policy");
    }
    match array(detail, "bypass_actors") {
        Err(e) => return Err(e),
        Ok(actors) => if actors.len() > 0 {
            return failed_with("Reviewed ruleset permits bypass actors");
        },
    }
    let rules = match array(detail, "rules") {
        Ok(rs) => rs,
        Err(e) => return Err(e),
    };
    if !rules_agree(rules, active, id) {
        return Err(owned("Active branch rules and ruleset details disagree; snapshot is unverified"));
    }
    let r = scan_kinds(active, id, strict, observed, kinds, seen);
    match r {
        Ok(Ok(())) => {
            found.push(id);
            Ok(Ok(()))
        },
        other => other,
    }
}

/// Compares reviewed GitHub rulesets with the branch rules GitHub reports as
/// active and with each ruleset's details: every reviewed ruleset must be
/// active, enforcing on branches without bypass actors, and together they
/// must require pull requests, forbid force-pushes and deletion, and bind the
/// reviewed checks to their producers with the reviewed up-to-date setting.
pub fn github_rulesets(
    ids: &[u64],
    strict: bool,
    checks: &[RequiredCheck],
    active: &[Json],
    details: &[Json],
) -> (r: Result<Result<(), String>, String>)
    ensures
        verdict_view(r) == github_rulesets_spec(ids@, strict, checks@, active@, details@),
{
    proof {
        reveal_strlit("pull_request");
        reveal_strlit("non_fast_forward");
        reveal_strlit("deletion");
        reveal_strlit("A reviewed ruleset is no longer active for trunk");
        reveal_strlit("Ruleset detail inventory is incomplete");
        reveal_strlit("Reviewed ruleset requirements or producer-bound checks drifted");
    }
    let active_ids = match active_ruleset_ids(active) {
        Ok(v) => v,
        Err(e) => return Err(e),
    };
    let mut k: usize = 0;
    while k < ids.len()
        invariant
            k <= ids@.len(),
            ruleset_ids(active@) == Ok::<Seq<u64>, Seq<char>>(active_ids@),
            forall|q: int| 0 <= q < k ==> active_ids@.contains(#[trigger] ids@[q]),
        decreases ids.len() - k,
    {
        if !u64_in(active_ids.as_slice(), ids[k]) {
            assert(!active_ids@.contains(ids@[k as int]));
            return failed_with("A reviewed ruleset is no longer active for trunk");
        }
        k = k + 1;
    }
    let mut found: Vec<u64> = Vec::new();
    let mut observed: Vec<(String, u64)> = Vec::new();
    let mut kinds: Vec<String> = Vec::new();
    let mut seen = false;
    let mut i: usize = 0;
    proof {
        assert(details@.subrange(0, 0) =~= Seq::<Json>::empty());
        assert(entries_view(observed@) =~= Seq::<(Seq<char>, u64)>::empty());
        assert(text_views(kinds@) =~= Seq::<Seq<char>>::empty());
        assert(found@ =~= Seq::<u64>::empty());
    }
    while i < details.len()
        invariant
            i <= details@.len(),
            ruleset_ids(active@) == Ok::<Seq<u64>, Seq<char>>(active_ids@),
            forall|q: int| 0 <= q < ids@.len() ==> active_ids@.contains(#[trigger] ids@[q]),
            details_scan(details@.subrange(0, i as int), ids@, strict, active@)
                == Ok::<Result<(Seq<u64>, KindState), Seq<char>>, Seq<char>>(Ok((found@, (entries_view(observed@), text_views(kinds@), seen)))),
        decreases details.len() - i,
    {
        assert(details@.subrange(0, i + 1).drop_last() =~= details@.subrange(0, i as int));
        assert(details@.subrange(0, i + 1).last() == details@[i as int]);
        let r = check_detail(&details[i], ids, strict, active, &mut found, &mut observed, &mut kinds, &mut seen);
        match r {
            Ok(Ok(())) => {},
            Ok(Err(f)) => {
                proof { lemma_details_stop(details@, ids@, strict, active@, i + 1); }
                return Ok(Err(f));
            },
            Err(e) => {
                proof { lemma_details_stop(details@, ids@, strict, active@, i + 1); }
                return Err(e);
            },
        }
        i = i + 1;
    }
    assert(details@.subrange(0, details@.len() as int) =~= details@);
    if !same_id_set(found.as_slice(), ids) {
        return Err(owned("Ruleset detail inventory is incomplete"));
    }
    if !(text_in(&kinds, "pull_request") && text_in(&kinds, "non_fast_forward") && text_in(&kinds, "deletion"))
        || !seen || !same_check_set(&observed, checks) {
        return failed_with("Reviewed ruleset requirements or producer-bound checks drifted");
    }
    Ok(Ok(()))
}

} // verus!
