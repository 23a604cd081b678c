//! Validation of active experiment plans against their review date and the
//! project's declared suites; not behavioral evidence.
use vstd::prelude::*;
use crate::adoption::{find_suite, runs_at, texts};
use crate::manifest::{ProjectManifest, TestStage, TestSuite};
use crate::text::{chars_of, copy_string, joined, owned, same_text, split_by};

use crate::schema::{check_schema_with_formats, schema_errors_with_formats, schema_refusal};

verus! {

/// Why an experiment record is not acceptable.
#[derive(Debug)]
pub enum ExperimentError {
    /// The record's schema could not be used.
    Schema(String),
    /// Required metadata or cross-references are invalid.
    Invalid(String),
}

/// One experiment configuration.
#[derive(Debug)]
pub struct Configuration {
    pub id: String,
    /// `stable`, `experimental` or another declared exposure.
    pub exposure: String,
    /// Declared suites that test this configuration.
    pub suites: Vec<String>,
}

/// An active experiment record, after its shape has been checked.
#[derive(Debug)]
pub struct ExperimentRecord {
    pub id: String,
    /// Inclusive review date, `YYYY-MM-DD`.
    pub review_by: String,
    pub configurations: Vec<Configuration>,
}

pub open spec fn digit_value(c: char) -> int {
    (c as int) - ('0' as int)
}

pub open spec fn is_digit(c: char) -> bool {
    '0' <= c && c <= '9'
}

/// The value of a nonempty run of decimal digits.
pub open spec fn digits_value(s: Seq<char>) -> int
    decreases s.len(),
{
    if s.len() == 0 {
        0
    } else {
        digits_value(s.drop_last()) * 10 + digit_value(s.last())
    }
}

/// `str::parse::<i64>` of text without a minus sign: an optional `+` and at
/// least one digit, within `i64`.
pub open spec fn number_digits(s: Seq<char>) -> Seq<char> {
    if s.len() > 0 && s[0] == '+' { s.drop_first() } else { s }
}

pub open spec fn parse_number(s: Seq<char>) -> Option<int> {
    let digits = number_digits(s);
    if digits.len() > 0 && (forall|i: int| 0 <= i < digits.len() ==> is_digit(#[trigger] digits[i]))
        && digits_value(digits) <= i64::MAX {
        Some(digits_value(digits))
    } else {
        None
    }
}

/// Days since 1970-01-01 of a proleptic Gregorian civil date.
pub open spec fn civil_days(year: int, month: int, day: int) -> int {
    let y = year - (if month <= 2 { 1int } else { 0int });
    let era = y / 400;
    let year_of_era = y - era * 400;
    let m = month + (if month > 2 { -3int } else { 9int });
    let day_of_year = (153 * m + 2) / 5 + day - 1;
    era * 146097 + year_of_era * 365 + year_of_era / 4 - year_of_era / 100 + day_of_year - 719468
}

/// The day count of `YYYY-MM-DD`: three numbers separated by `-`, each
/// within `i64`; `None` otherwise, or where the day count leaves `i64`.
pub open spec fn date_days_spec(date: Seq<char>) -> Option<int> {
    let parts = split_by(date, '-');
    if parts.len() == 3 && (forall|k: int| 0 <= k < 3 ==> #[trigger] parse_number(parts[k]) is Some) {
        let d = civil_days(parse_number(parts[0])->0, parse_number(parts[1])->0, parse_number(parts[2])->0);
        if i64::MIN <= d <= i64::MAX { Some(d) } else { None }
    } else {
        None
    }
}

pub open spec fn date_message() -> Seq<char> {
    "review_by must be YYYY-MM-DD"@
}

proof fn lemma_digits_step(s: Seq<char>, c: char)
    ensures
        digits_value(s.push(c)) == digits_value(s) * 10 + digit_value(c),
{
    assert(s.push(c).drop_last() =~= s);
}

proof fn lemma_digits_nonneg(s: Seq<char>)
    requires
        forall|i: int| 0 <= i < s.len() ==> is_digit(#[trigger] s[i]),
    ensures
        digits_value(s) >= 0,
    decreases s.len(),
{
    if s.len() > 0 {
        lemma_digits_nonneg(s.drop_last());
    }
}

proof fn lemma_digits_prefix_le(s: Seq<char>, n: int)
    requires
        0 <= n <= s.len(),
        forall|i: int| 0 <= i < s.len() ==> is_digit(#[trigger] s[i]),
    ensures
        digits_value(s.subrange(0, n)) <= digits_value(s),
    decreases s.len() - n,
{
    if n < s.len() {
        lemma_digits_prefix_le(s, n + 1);
        let p = s.subrange(0, n + 1);
        assert(p.drop_last() =~= s.subrange(0, n));
        assert(p.last() == s[n]);
        assert forall|i: int| 0 <= i < n implies is_digit(#[trigger] s.subrange(0, n)[i]) by {
            assert(s.subrange(0, n)[i] == s[i]);
        }
        lemma_digits_nonneg(s.subrange(0, n));
    } else {
        assert(s.subrange(0, n) =~= s);
    }
}

/// `part.parse::<i64>()` for text without `-`.
fn parse_part(part: &Vec<char>) -> (r: Option<i64>)
    ensures
        match r {
            Some(v) => parse_number(part@) == Some(v as int) && v >= 0,
            None => parse_number(part@) is None,
        },
{
    let ghost digits = number_digits(part@);
    let start: usize = if part.len() > 0 && part[0] == '+' { 1 } else { 0 };
    assert(digits =~= part@.subrange(start as int, part@.len() as int));
    if start >= part.len() {
        return None;
    }
    let mut value: u64 = 0;
    let mut i = start;
    while i < part.len()
        invariant
            start <= i <= part@.len(),
            digits == part@.subrange(start as int, part@.len() as int),
            digits == number_digits(part@),
            forall|q: int| start <= q < i ==> is_digit(#[trigger] part@[q]),
            value as int == digits_value(part@.subrange(start as int, i as int)),
            value <= i64::MAX,
        decreases part.len() - i,
    {
        let c = part[i];
        if !('0' <= c && c <= '9') {
            assert(digits[i - start] == c);
            assert(!is_digit(digits[i - start]));
            assert(!(forall|q: int| 0 <= q < digits.len() ==> is_digit(#[trigger] digits[q])));
            return None;
        }
        let d = (c as u32 - '0' as u32) as u64;
        proof {
            lemma_digits_step(part@.subrange(start as int, i as int), c);
            assert(part@.subrange(start as int, i + 1) =~= part@.subrange(start as int, i as int).push(c));
        }
        if value > (9223372036854775807u64 - d) / 10 {
            proof {
                if forall|q: int| 0 <= q < digits.len() ==> is_digit(#[trigger] digits[q]) {
                    lemma_digits_prefix_le(digits, (i + 1 - start) as int);
                    assert(digits.subrange(0, (i + 1 - start) as int) =~= part@.subrange(start as int, i + 1));
                    assert(value * 10 + d > 9223372036854775807) by (nonlinear_arith)
                        requires value > (9223372036854775807u64 - d) / 10, d <= 9;
                    assert(digits_value(part@.subrange(start as int, i + 1)) == value * 10 + d);
                    assert(digits_value(digits) > i64::MAX);
                }
            }
            return None;
        }
        value = value * 10 + d;
        i = i + 1;
    }
    proof {
        assert(part@.subrange(start as int, part@.len() as int) == digits);
        assert forall|q: int| 0 <= q < digits.len() implies is_digit(#[trigger] digits[q]) by {
            assert(digits[q] == part@[start + q]);
        }
    }
    Some(value as i64)
}

proof fn lemma_split_prefix_parts(s: Seq<char>, sep: char, n: int, k: int)
    requires
        0 <= n <= s.len(),
        0 <= k < split_by(s.subrange(0, n), sep).len() - 1,
    ensures
        k < split_by(s, sep).len(),
        split_by(s, sep)[k] == split_by(s.subrange(0, n), sep)[k],
    decreases s.len() - n,
{
    lemma_split_len(s.subrange(0, n), sep);
    if n < s.len() {
        let next = s.subrange(0, n + 1);
        assert(next.drop_last() =~= s.subrange(0, n));
        assert(split_by(next, sep)[k] == split_by(s.subrange(0, n), sep)[k]);
        lemma_split_prefix_parts(s, sep, n + 1, k);
    } else {
        assert(s.subrange(0, n) =~= s);
    }
}

proof fn lemma_split_len(s: Seq<char>, sep: char)
    ensures
        split_by(s, sep).len() >= 1,
    decreases s.len(),
{
    if s.len() > 0 {
        lemma_split_len(s.drop_last(), sep);
    }
}

proof fn lemma_split_grows(s: Seq<char>, sep: char, n: int)
    requires
        0 <= n <= s.len(),
    ensures
        split_by(s.subrange(0, n), sep).len() <= split_by(s, sep).len(),
    decreases s.len() - n,
{
    lemma_split_len(s.subrange(0, n), sep);
    if n < s.len() {
        let next = s.subrange(0, n + 1);
        assert(next.drop_last() =~= s.subrange(0, n));
        lemma_split_grows(s, sep, n + 1);
    } else {
        assert(s.subrange(0, n) =~= s);
    }
}

/// The `-`-separated parts of a text.
fn date_parts(date: &str) -> (r: Vec<Vec<char>>)
    ensures
        r@.len() == split_by(date@, '-').len(),
        forall|k: int| 0 <= k < r@.len() ==> (#[trigger] r@[k])@ == split_by(date@, '-')[k],
{
    let v = chars_of(date);
    let mut parts: Vec<Vec<char>> = Vec::new();
    let mut cur: Vec<char> = Vec::new();
    let mut i: usize = 0;
    proof {
        assert(v@.subrange(0, 0) =~= Seq::<char>::empty());
        assert(cur@ =~= Seq::<char>::empty());
    }
    while i < v.len()
        invariant
            v@ == date@,
            i <= v@.len(),
            split_by(v@.subrange(0, i as int), '-').len() == parts@.len() + 1,
            split_by(v@.subrange(0, i as int), '-').last() == cur@,
            forall|k: int| 0 <= k < parts@.len() ==> (#[trigger] parts@[k])@ == split_by(v@.subrange(0, i as int), '-')[k],
        decreases v.len() - i,
    {
        let ghost pre = v@.subrange(0, i as int);
        let ghost next = v@.subrange(0, i + 1);
        assert(next.drop_last() =~= pre);
        assert(next.last() == v@[i as int]);
        if v[i] == '-' {
            let ghost old_parts = parts@;
            parts.push(cur);
            cur = Vec::new();
            proof {
                assert(cur@ =~= Seq::<char>::empty());
                assert forall|k: int| 0 <= k < parts@.len() implies (#[trigger] parts@[k])@ == split_by(next, '-')[k] by {
                    if k < old_parts.len() {
                        assert(parts@[k] == old_parts[k]);
                    }
                }
            }
        } else {
            cur.push(v[i]);
        }
        i = i + 1;
    }
    assert(v@.subrange(0, v@.len() as int) =~= v@);
    let ghost old_parts = parts@;
    parts.push(cur);
    proof {
        assert forall|k: int| 0 <= k < parts@.len() implies (#[trigger] parts@[k])@ == split_by(date@, '-')[k] by {
            if k < old_parts.len() {
                assert(parts@[k] == old_parts[k]);
            }
        }
    }
    parts
}

/// Days since the Unix epoch of a `YYYY-MM-DD` civil date; anything other
/// than three numbers separated by `-`, or a day count outside `i64`, is
/// refused.
pub fn date_days(date: &str) -> (r: Result<i64, ExperimentError>)
    ensures
        match date_days_spec(date@) {
            Some(d) => r matches Ok(v) && v as int == d,
            None => r matches Err(ExperimentError::Invalid(m)) && m@ == date_message(),
        },
{
    proof { reveal_strlit("review_by must be YYYY-MM-DD"); }
    let parts = date_parts(date);
    let ghost split = split_by(date@, '-');
    let mut values: Vec<i64> = Vec::new();
    let mut k: usize = 0;
    while k < parts.len()
        invariant
            parts@.len() == split.len(),
            split == split_by(date@, '-'),
            forall|q: int| 0 <= q < parts@.len() ==> (#[trigger] parts@[q])@ == split[q],
            k <= parts@.len(),
            values@.len() == k,
            forall|q: int| 0 <= q < k ==> parse_number(split[q]) == Some(#[trigger] values@[q] as int),
            forall|q: int| 0 <= q < k ==> 0 <= #[trigger] values@[q],
        decreases parts.len() - k,
    {
        match parse_part(&parts[k]) {
            Some(v) => {
                proof {
                    assert(split[k as int] == split_by(date@, '-')[k as int]);
                }
                values.push(v);
            },
            None => {
                proof {
                    assert(!(parse_number(split[k as int]) is Some));
                    if split.len() == 3 {
                        assert(!(forall|q: int| 0 <= q < 3 ==> #[trigger] parse_number(split[q]) is Some));
                    }
                }
                return Err(ExperimentError::Invalid(owned("review_by must be YYYY-MM-DD")));
            },
        }
        k = k + 1;
    }
    if values.len() != 3 {
        return Err(ExperimentError::Invalid(owned("review_by must be YYYY-MM-DD")));
    }
    let year = values[0] as i128;
    let month = values[1] as i128;
    let day = values[2] as i128;
    proof {
        assert(parse_number(split[0]) == Some(year as int));
        assert(parse_number(split[1]) == Some(month as int));
        assert(parse_number(split[2]) == Some(day as int));
        assert(forall|q: int| 0 <= q < 3 ==> #[trigger] parse_number(split[q]) is Some);
    }
    let y = year - if month <= 2 { 1 } else { 0 };
    let era = if y >= 0 { y / 400 } else { (y - 399) / 400 };
    let year_of_era = y - era * 400;
    let m = month + if month > 2 { -3 } else { 9 };
    proof {
        assert(0 <= m <= 9_223_372_036_854_775_807);
        assert(153 * m + 2 <= 153 * 9_223_372_036_854_775_807int + 2) by (nonlinear_arith)
            requires 0 <= m <= 9_223_372_036_854_775_807;
        assert(era * 400 <= y + 400) by (nonlinear_arith) requires era == if y >= 0 { y / 400 } else { (y - 399) / 400 }, y >= -1;
        assert(era == y / 400) by (nonlinear_arith) requires era == if y >= 0 { y / 400 } else { (y - 399) / 400 }, y >= -1;
        assert(0 <= year_of_era < 400) by (nonlinear_arith) requires year_of_era == y - era * 400, era == y / 400;
        assert(-1 <= era <= 23_058_430_092_136_940) by (nonlinear_arith)
            requires era == y / 400, -1 <= y <= 9_223_372_036_854_775_807;
        assert(-146097 <= era * 146097 <= 23_058_430_092_136_940 * 146097) by (nonlinear_arith)
            requires -1 <= era <= 23_058_430_092_136_940;
    }
    let day_of_year = (153 * m + 2) / 5 + day - 1;
    let total = era * 146097 + year_of_era * 365 + year_of_era / 4 - year_of_era / 100 + day_of_year - 719468;
    if total < i64::MIN as i128 || total > i64::MAX as i128 {
        return Err(ExperimentError::Invalid(owned("review_by must be YYYY-MM-DD")));
    }
    Ok(total as i64)
}

/// Within a month, the next day is one day later.
pub proof fn lemma_next_day(year: int, month: int, day: int)
    ensures
        civil_days(year, month, day + 1) == civil_days(year, month, day) + 1,
{
}


pub open spec fn overdue_message(review_by: Seq<char>) -> Seq<char> {
    "review overdue since "@ + review_by + "; review the decision and cleanup plan before extending it"@
}

pub open spec fn duplicate_configuration_message(id: Seq<char>) -> Seq<char> {
    "duplicate configuration `"@ + id + "`"@
}

pub open spec fn unknown_suite_message(config: Seq<char>, id: Seq<char>) -> Seq<char> {
    "configuration `"@ + config + "` references unknown test suite `"@ + id + "`"@
}

pub open spec fn coverage_message(config: Seq<char>) -> Seq<char> {
    "configuration `"@ + config + "` requires declared pre_merge and post_merge suite coverage"@
}

pub open spec fn both_message() -> Seq<char> {
    "declare both stable and experimental configurations"@
}

/// Whether a configuration's suites run before and after integration; an
/// unknown suite stops the check.
pub open spec fn coverage(config: Seq<char>, ids: Seq<Seq<char>>, suites: Seq<TestSuite>) -> Result<(bool, bool), Seq<char>>
    decreases ids.len(),
{
    if ids.len() == 0 {
        Ok((false, false))
    } else {
        match coverage(config, ids.drop_last(), suites) {
            Err(e) => Err(e),
            Ok((pre, post)) => match find_suite(suites, ids.last()) {
                None => Err(unknown_suite_message(config, ids.last())),
                Some(s) => Ok((pre || s.stages@.contains(TestStage::PreMerge), post || s.stages@.contains(TestStage::PostMerge))),
            },
        }
    }
}

pub type ConfigScan = Result<(Seq<Seq<char>>, bool, bool), Seq<char>>;

/// Configurations in order: identities seen, and whether a stable and an
/// experimental one were seen.
pub open spec fn configurations_scan(configs: Seq<Configuration>, suites: Seq<TestSuite>) -> ConfigScan
    decreases configs.len(),
{
    if configs.len() == 0 {
        Ok((Seq::empty(), false, false))
    } else {
        match configurations_scan(configs.drop_last(), suites) {
            Err(e) => Err(e),
            Ok((ids, stable, experimental)) => {
                let c = configs.last();
                if ids.contains(c.id@) {
                    Err(duplicate_configuration_message(c.id@))
                } else {
                    match coverage(c.id@, texts(c.suites@), suites) {
                        Err(e) => Err(e),
                        Ok((pre, post)) => if !pre || !post {
                            Err(coverage_message(c.id@))
                        } else {
                            Ok((ids.push(c.id@), stable || c.exposure@ == "stable"@, experimental || c.exposure@ == "experimental"@))
                        },
                    }
                }
            },
        }
    }
}

/// An active experiment: reviewed on time, every configuration distinct and
/// tested before and after integration, with both a stable and an
/// experimental configuration.
pub open spec fn experiment_spec(record: ExperimentRecord, suites: Seq<TestSuite>, today: int) -> Result<Seq<char>, Seq<char>> {
    match date_days_spec(record.review_by@) {
        None => Err(date_message()),
        Some(d) => if d < today {
            Err(overdue_message(record.review_by@))
        } else {
            match configurations_scan(record.configurations@, suites) {
                Err(e) => Err(e),
                Ok((_, stable, experimental)) => if !stable || !experimental {
                    Err(both_message())
                } else {
                    Ok(record.id@)
                },
            }
        },
    }
}

proof fn lemma_configs_error(configs: Seq<Configuration>, suites: Seq<TestSuite>, n: int)
    requires
        0 <= n <= configs.len(),
        configurations_scan(configs.subrange(0, n), suites) is Err,
    ensures
        configurations_scan(configs, suites) == configurations_scan(configs.subrange(0, n), suites),
    decreases configs.len() - n,
{
    if n < configs.len() {
        assert(configs.subrange(0, n + 1).drop_last() =~= configs.subrange(0, n));
        lemma_configs_error(configs, suites, n + 1);
    } else {
        assert(configs.subrange(0, n) =~= configs);
    }
}

proof fn lemma_coverage_error(config: Seq<char>, ids: Seq<Seq<char>>, suites: Seq<TestSuite>, n: int)
    requires
        0 <= n <= ids.len(),
        coverage(config, ids.subrange(0, n), suites) is Err,
    ensures
        coverage(config, ids, suites) == coverage(config, ids.subrange(0, n), suites),
    decreases ids.len() - n,
{
    if n < ids.len() {
        assert(ids.subrange(0, n + 1).drop_last() =~= ids.subrange(0, n));
        lemma_coverage_error(config, ids, suites, n + 1);
    } else {
        assert(ids.subrange(0, n) =~= ids);
    }
}

pub(crate) fn suite_lookup<'a>(suites: &'a [TestSuite], id: &str) -> (r: Option<&'a TestSuite>)
    ensures
        match r {
            Some(s) => find_suite(suites@, id@) == Some(*s),
            None => find_suite(suites@, id@) is None,
        },
{
    let mut i: usize = 0;
    assert(suites@.subrange(0, suites@.len() as int) =~= suites@);
    while i < suites.len()
        invariant
            i <= suites@.len(),
            find_suite(suites@, id@) == find_suite(suites@.subrange(i as int, suites@.len() as int), id@),
        decreases suites.len() - i,
    {
        let ghost rest = suites@.subrange(i as int, suites@.len() as int);
        assert(rest[0] == suites@[i as int]);
        assert(rest.drop_first() =~= suites@.subrange(i + 1, suites@.len() as int));
        if same_text(suites[i].id.as_str(), id) {
            return Some(&suites[i]);
        }
        i = i + 1;
    }
    None
}

fn config_coverage(config: &Configuration, suites: &[TestSuite]) -> (r: Result<(bool, bool), String>)
    ensures
        match r {
            Ok(x) => coverage(config.id@, texts(config.suites@), suites@) == Ok::<(bool, bool), Seq<char>>(x),
            Err(e) => coverage(config.id@, texts(config.suites@), suites@) == Err::<(bool, bool), Seq<char>>(e@),
        },
{
    proof {
        reveal_strlit("configuration `");
        reveal_strlit("` references unknown test suite `");
        reveal_strlit("`");
    }
    let ghost ids = texts(config.suites@);
    let mut pre = false;
    let mut post = false;
    let mut i: usize = 0;
    assert(ids.subrange(0, 0) =~= Seq::<Seq<char>>::empty());
    while i < config.suites.len()
        invariant
            ids == texts(config.suites@),
            i <= config.suites@.len(),
            coverage(config.id@, ids.subrange(0, i as int), suites@) == Ok::<(bool, bool), Seq<char>>((pre, post)),
        decreases config.suites.len() - i,
    {
        assert(ids.subrange(0, i + 1).drop_last() =~= ids.subrange(0, i as int));
        assert(ids.subrange(0, i + 1).last() == config.suites@[i as int]@);
        let id = config.suites[i].as_str();
        match suite_lookup(suites, id) {
            None => {
                proof { lemma_coverage_error(config.id@, ids, suites@, i + 1); }
                let mut m = joined("configuration `", config.id.as_str());
                m.append("` references unknown test suite `");
                m.append(id);
                m.append("`");
                return Err(m);
            },
            Some(s) => {
                pre = pre || runs_at(&s.stages, TestStage::PreMerge);
                post = post || runs_at(&s.stages, TestStage::PostMerge);
            },
        }
        i = i + 1;
    }
    assert(ids.subrange(0, ids.len() as int) =~= ids);
    Ok((pre, post))
}

fn seen_id(ids: &Vec<String>, id: &String) -> (r: bool)
    ensures
        r == texts(ids@).contains(id@),
{
    let mut i: usize = 0;
    while i < ids.len()
        invariant
            i <= ids@.len(),
            forall|k: int| 0 <= k < i ==> texts(ids@)[k] != id@,
        decreases ids.len() - i,
    {
        if same_text(ids[i].as_str(), id.as_str()) {
            assert(texts(ids@)[i as int] == id@);
            return true;
        }
        i = i + 1;
    }
    false
}

/// Validates an active experiment record against its review date and the
/// project's suites; `today` is the UTC day count since the Unix epoch, and
/// the review date is inclusive. Returns the record's identity.
pub fn validate_experiment(record: &ExperimentRecord, manifest: &ProjectManifest, today: i64) -> (r: Result<String, ExperimentError>)
    ensures
        match experiment_spec(*record, manifest.testing.suites@, today as int) {
            Ok(id) => r matches Ok(v) && v@ == id,
            Err(m) => r matches Err(ExperimentError::Invalid(x)) && x@ == m,
        },
{
    proof {
        reveal_strlit("review overdue since ");
        reveal_strlit("; review the decision and cleanup plan before extending it");
        reveal_strlit("duplicate configuration `");
        reveal_strlit("`");
        reveal_strlit("configuration `");
        reveal_strlit("` requires declared pre_merge and post_merge suite coverage");
        reveal_strlit("declare both stable and experimental configurations");
        reveal_strlit("stable");
        reveal_strlit("experimental");
    }
    let days = match date_days(record.review_by.as_str()) {
        Ok(d) => d,
        Err(e) => return Err(e),
    };
    if days < today {
        let mut m = joined("review overdue since ", record.review_by.as_str());
        m.append("; review the decision and cleanup plan before extending it");
        return Err(ExperimentError::Invalid(m));
    }
    let mut ids: Vec<String> = Vec::new();
    let mut stable = false;
    let mut experimental = false;
    let mut i: usize = 0;
    let ghost configs = record.configurations@;
    let ghost suites = manifest.testing.suites@;
    assert(configs.subrange(0, 0) =~= Seq::<Configuration>::empty());
    assert(texts(ids@) =~= Seq::<Seq<char>>::empty());
    while i < record.configurations.len()
        invariant
            configs == record.configurations@,
            suites == manifest.testing.suites@,
            date_days_spec(record.review_by@) == Some(days as int),
            days >= today,
            i <= configs.len(),
            configurations_scan(configs.subrange(0, i as int), suites) == Ok::<(Seq<Seq<char>>, bool, bool), Seq<char>>((texts(ids@), stable, experimental)),
        decreases record.configurations.len() - i,
    {
        let c = &record.configurations[i];
        assert(configs.subrange(0, i + 1).drop_last() =~= configs.subrange(0, i as int));
        assert(configs.subrange(0, i + 1).last() == *c);
        if seen_id(&ids, &c.id) {
            proof { lemma_configs_error(configs, suites, i + 1); }
            let mut m = joined("duplicate configuration `", c.id.as_str());
            m.append("`");
            return Err(ExperimentError::Invalid(m));
        }
        let (pre, post) = match config_coverage(c, manifest.testing.suites.as_slice()) {
            Ok(x) => x,
            Err(e) => {
                proof { lemma_configs_error(configs, suites, i + 1); }
                return Err(ExperimentError::Invalid(e));
            },
        };
        if !pre || !post {
            proof { lemma_configs_error(configs, suites, i + 1); }
            let mut m = joined("configuration `", c.id.as_str());
            m.append("` requires declared pre_merge and post_merge suite coverage");
            return Err(ExperimentError::Invalid(m));
        }
        stable = stable || same_text(c.exposure.as_str(), "stable");
        experimental = experimental || same_text(c.exposure.as_str(), "experimental");
        let ghost before = ids@;
        ids.push(copy_string(&c.id));
        assert(texts(ids@) =~= texts(before).push(c.id@));
        i = i + 1;
    }
    assert(configs.subrange(0, configs.len() as int) =~= configs);
    if !stable || !experimental {
        return Err(ExperimentError::Invalid(owned("declare both stable and experimental configurations")));
    }
    Ok(copy_string(&record.id))
}

/// Validates an experiment document: first against its schema, formats
/// included, where a schema is given; then the record read from it (see
/// `validate_experiment`). A schema that cannot be used is reported as such;
/// violations are reported joined by `; `.
pub fn validate_experiment_document(
    document: &str,
    schema: Option<&str>,
    record: &ExperimentRecord,
    manifest: &ProjectManifest,
    today: i64,
) -> (r: Result<String, ExperimentError>)
    ensures
        match (match schema { Some(s) => schema_refusal(schema_errors_with_formats(s@, document@)), None => None }) {
            Some(Err(m)) => r matches Err(ExperimentError::Schema(x)) && x@ == m,
            Some(Ok(m)) => r matches Err(ExperimentError::Invalid(x)) && x@ == m,
            None => match experiment_spec(*record, manifest.testing.suites@, today as int) {
                Ok(id) => r matches Ok(v) && v@ == id,
                Err(m) => r matches Err(ExperimentError::Invalid(x)) && x@ == m,
            },
        },
{
    if let Some(s) = schema {
        match check_schema_with_formats(s, document) {
            Ok(()) => {},
            Err(Err(m)) => return Err(ExperimentError::Schema(m)),
            Err(Ok(m)) => return Err(ExperimentError::Invalid(m)),
        }
    }
    validate_experiment(record, manifest, today)
}

} // verus!
