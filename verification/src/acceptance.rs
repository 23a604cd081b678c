//! Change-scoped acceptance evidence: the shape checks of tracked excerpts,
//! acceptance inventories and their verification mappings. Not a semantic proof.
use vstd::prelude::*;
use crate::outcome::Outcome;
use crate::text::{
    blank, chars_of, contains_chars, contains_text, ends_with_chars, is_blank, owned, same_text, split_by,
    starts_with_chars, trim_bounds, trimmed,
};
use crate::junit::{all_digits, digits_value, lemma_digits_prefix, sha256_hex, sha256_hex_of, unsigned_text, utf8_text};

verus! {

/// Repository-relative location of the project evidence ledger.
pub const EVIDENCE_PATH: &'static str = ".opdev/evidence.yaml";

/// Why evidence cannot be used.
#[derive(Debug)]
pub enum EvidenceError {
    /// The evidence breaks one of its own rules.
    Semantic(String),
    /// The version-control tool could not answer.
    Git(String),
    /// A file could not be read.
    Read { path: String, reason: String },
}

/// Exact tracked bytes and excerpt supporting a reviewed claim.
#[derive(Debug)]
pub struct TrackedEvidence {
    /// Repository-relative regular file; never a URL or a symlink.
    pub path: String,
    /// SHA-256 of the complete Git-index blob, before checkout transformations.
    pub sha256: String,
    /// Exact, nonempty excerpt identifying the requirement or assertion.
    pub excerpt: String,
}

/// Reviewed classification, not inferred from file extensions.
#[derive(Clone, Copy, Debug, PartialEq, Eq, Structural)]
pub enum AcceptanceScope {
    /// At least one delivered behavior is changed.
    Behavioral,
    /// Material conditions exist but delivered behavior is unchanged.
    NonBehavioral,
    /// No material acceptance conditions; requires a reviewed justification.
    NoMaterialConditions,
}

/// One material condition in the reviewed inventory.
#[derive(Debug)]
pub struct AcceptanceCondition {
    /// Change-local stable identity.
    pub id: String,
    /// Observable accepted condition, not inferred from implementation.
    pub statement: String,
    /// Authority the requirement comes from (including a tracker URL when applicable).
    pub authority: String,
    /// Versioned source or explicitly identified captured authority excerpt.
    pub source: TrackedEvidence,
}

/// Tool-independent method; no reporter or test-runner dependency.
#[derive(Clone, Copy, Debug, PartialEq, Eq, Structural)]
pub enum AcceptanceMethod {
    /// A reviewed assertion exercised by a declared canonical suite.
    Automated,
    /// Concrete non-executable verification, with automation limitations stated.
    Review,
}

/// Verification mapping for exactly one inventoried acceptance condition.
#[derive(Debug)]
pub struct AcceptanceVerification {
    pub condition: String,
    pub method: AcceptanceMethod,
    pub target: TrackedEvidence,
    pub assertion: String,
    pub discriminating_case: String,
    pub suite: Option<String>,
    pub automation_limitation: Option<String>,
    pub outcome: Outcome,
}

/// Review of the exact inventory and mappings; claims, not authenticated approval.
#[derive(Debug)]
pub struct AcceptanceReview {
    pub outcome: Outcome,
    pub reviewer: String,
    pub reference: String,
    pub rationale: String,
    pub subject_sha256: String,
}

/// Structured acceptance section of the evidence ledger.
#[derive(Debug)]
pub struct AcceptanceEvidence {
    pub scope: AcceptanceScope,
    pub rationale: String,
    pub conditions: Vec<AcceptanceCondition>,
    pub verifications: Vec<AcceptanceVerification>,
    pub review: AcceptanceReview,
}

pub open spec fn hex_digit(c: char) -> bool {
    ('0' <= c && c <= '9') || ('a' <= c && c <= 'f')
}

/// A lowercase hexadecimal SHA-256 digest: 64 digits.
pub open spec fn digest_ok(s: Seq<char>) -> bool {
    s.len() == 64 && forall|i: int| 0 <= i < s.len() ==> hex_digit(#[trigger] s[i])
}

/// Whether text is a lowercase hexadecimal SHA-256 digest.
pub fn digest_valid(value: &str) -> (r: bool)
    ensures
        r == digest_ok(value@),
{
    let v = chars_of(value);
    if v.len() != 64 {
        return false;
    }
    let mut i: usize = 0;
    while i < v.len()
        invariant
            v@ == value@,
            i <= v@.len(),
            forall|k: int| 0 <= k < i ==> hex_digit(#[trigger] v@[k]),
        decreases v.len() - i,
    {
        let c = v[i];
        if !(('0' <= c && c <= '9') || ('a' <= c && c <= 'f')) {
            return false;
        }
        i = i + 1;
    }
    true
}

/// Characters a tracked path may not contain.
pub open spec fn forbidden_path_char(c: char) -> bool {
    c == '\\' || c == ':' || c == '\0' || c == '\n' || c == '\r'
}

/// A path segment that cannot name a tracked file.
pub open spec fn bad_segment(p: Seq<char>) -> bool {
    p.len() == 0 || p == "."@ || p == ".."@ || p == ".git"@
}

/// A tracked reference: a plain repository-relative path other than the
/// evidence ledger, a valid digest, and a nonblank excerpt.
pub open spec fn tracked_ok(e: TrackedEvidence) -> bool {
    let path = e.path@;
    &&& path.len() > 0
    &&& forall|i: int| 0 <= i < path.len() ==> !forbidden_path_char(#[trigger] path[i])
    &&& forall|k: int| 0 <= k < split_by(path, '/').len() ==> !bad_segment(#[trigger] split_by(path, '/')[k])
    &&& path != EVIDENCE_PATH@
    &&& digest_ok(e.sha256@)
    &&& !is_blank(e.excerpt@)
}

pub open spec fn tracked_message() -> Seq<char> {
    "invalid tracked acceptance reference"@
}

proof fn lemma_split_len(s: Seq<char>, sep: char)
    ensures
        split_by(s, sep).len() >= 1,
    decreases s.len(),
{
    if s.len() > 0 {
        lemma_split_len(s.drop_last(), sep);
    }
}

proof fn lemma_split_keeps(s: Seq<char>, sep: char, n: int, k: int)
    requires
        0 <= n <= s.len(),
        0 <= k < split_by(s.subrange(0, n), sep).len() - 1,
    ensures
        k < split_by(s, sep).len(),
        split_by(s, sep)[k] == split_by(s.subrange(0, n), sep)[k],
    decreases s.len() - n,
{
    lemma_split_len(s.subrange(0, n), sep);
    if n < s.len() {
        let next = s.subrange(0, n + 1);
        assert(next.drop_last() =~= s.subrange(0, n));
        assert(split_by(next, sep)[k] == split_by(s.subrange(0, n), sep)[k]);
        lemma_split_keeps(s, sep, n + 1, k);
    } else {
        assert(s.subrange(0, n) =~= s);
    }
}

fn segment_bad(p: &Vec<char>) -> (r: bool)
    ensures
        r == bad_segment(p@),
{
    proof {
        reveal_strlit(".");
        reveal_strlit("..");
        reveal_strlit(".git");
    }
    let n = p.len();
    if n == 0 {
        return true;
    }
    if n == 1 && p[0] == '.' {
        assert(p@ =~= "."@);
        return true;
    }
    if n == 2 && p[0] == '.' && p[1] == '.' {
        assert(p@ =~= ".."@);
        return true;
    }
    if n == 4 && p[0] == '.' && p[1] == 'g' && p[2] == 'i' && p[3] == 't' {
        assert(p@ =~= ".git"@);
        return true;
    }
    proof {
        if p@ == "."@ { assert(p@[0] == '.'); }
        if p@ == ".."@ { assert(p@[0] == '.' && p@[1] == '.'); }
        if p@ == ".git"@ { assert(p@[0] == '.' && p@[1] == 'g' && p@[2] == 'i' && p@[3] == 't'); }
    }
    false
}

/// Whether the path has a forbidden character or an unusable segment.
fn path_unusable(path: &str) -> (r: bool)
    ensures
        r == (exists|i: int| 0 <= i < path@.len() && forbidden_path_char(#[trigger] path@[i])
            || exists|k: int| 0 <= k < split_by(path@, '/').len() && bad_segment(#[trigger] split_by(path@, '/')[k])),
{
    let v = chars_of(path);
    let mut cur: Vec<char> = Vec::new();
    let mut i: usize = 0;
    proof {
        assert(v@.subrange(0, 0) =~= Seq::<char>::empty());
        assert(cur@ =~= Seq::<char>::empty());
    }
    while i < v.len()
        invariant
            v@ == path@,
            i <= v@.len(),
            forall|q: int| 0 <= q < i ==> !forbidden_path_char(#[trigger] v@[q]),
            split_by(v@.subrange(0, i as int), '/').len() >= 1,
            split_by(v@.subrange(0, i as int), '/').last() == cur@,
            forall|k: int| 0 <= k < split_by(v@.subrange(0, i as int), '/').len() - 1
                ==> !bad_segment(#[trigger] split_by(v@.subrange(0, i as int), '/')[k]),
        decreases v.len() - i,
    {
        let c = v[i];
        if c == '\\' || c == ':' || c == '\0' || c == '\n' || c == '\r' {
            assert(forbidden_path_char(path@[i as int]));
            return true;
        }
        let ghost pre = v@.subrange(0, i as int);
        let ghost next = v@.subrange(0, i + 1);
        assert(next.drop_last() =~= pre);
        assert(next.last() == v@[i as int]);
        if c == '/' {
            if segment_bad(&cur) {
                proof {
                    let k = split_by(pre, '/').len() - 1;
                    assert(split_by(next, '/')[k] == cur@);
                    lemma_split_keeps(path@, '/', i + 1, k);
                }
                return true;
            }
            cur = Vec::new();
            proof {
                assert(cur@ =~= Seq::<char>::empty());
                assert forall|k: int| 0 <= k < split_by(next, '/').len() - 1 implies !bad_segment(#[trigger] split_by(next, '/')[k]) by {
                    assert(split_by(next, '/')[k] == split_by(pre, '/')[k] || k == split_by(pre, '/').len() - 1);
                }
            }
        } else {
            cur.push(c);
            proof {
                assert forall|k: int| 0 <= k < split_by(next, '/').len() - 1 implies !bad_segment(#[trigger] split_by(next, '/')[k]) by {
                    assert(split_by(next, '/')[k] == split_by(pre, '/')[k]);
                }
            }
        }
        i = i + 1;
    }
    assert(v@.subrange(0, v@.len() as int) =~= v@);
    let last = segment_bad(&cur);
    proof {
        let segs = split_by(path@, '/');
        if !last {
            assert forall|k: int| 0 <= k < segs.len() implies !bad_segment(#[trigger] segs[k]) by {
                if k == segs.len() - 1 {
                    assert(segs[k] == cur@);
                }
            }
        } else {
            assert(bad_segment(segs[segs.len() - 1]));
        }
    }
    last
}

impl TrackedEvidence {
    /// Rejects a tracked reference that cannot name one reviewed file and excerpt.
    pub fn validate(&self) -> (r: Result<(), EvidenceError>)
        ensures
            r is Ok <==> tracked_ok(*self),
            r is Err ==> (r matches Err(EvidenceError::Semantic(m)) && m@ == tracked_message()),
    {
        proof {
            reveal_strlit(".opdev/evidence.yaml");
            reveal_strlit("invalid tracked acceptance reference");
        }
        if self.path.as_str().is_empty()
            || path_unusable(self.path.as_str())
            || same_text(self.path.as_str(), EVIDENCE_PATH)
            || !digest_valid(self.sha256.as_str())
            || blank(self.excerpt.as_str())
        {
            return Err(EvidenceError::Semantic(owned("invalid tracked acceptance reference")));
        }
        proof { assert(self.path@.len() > 0); }
        Ok(())
    }
}

/// Outcomes a review may record: passed, failed or unverified.
pub open spec fn reviewable(o: Outcome) -> bool {
    o == Outcome::Passed || o == Outcome::Failed || o == Outcome::Unverified
}

pub fn review_outcome(outcome: Outcome) -> (r: bool)
    ensures
        r == reviewable(outcome),
{
    match outcome {
        Outcome::Passed | Outcome::Failed | Outcome::Unverified => true,
        _ => false,
    }
}

impl AcceptanceEvidence {
    /// An empty, unreviewed acceptance section.
    pub fn default() -> (r: AcceptanceEvidence)
        ensures
            r.scope == AcceptanceScope::Behavioral,
            r.rationale@.len() == 0,
            r.conditions@.len() == 0,
            r.verifications@.len() == 0,
            r.review.outcome == Outcome::Unverified,
            r.review.reviewer@.len() == 0,
            r.review.reference@.len() == 0,
            r.review.rationale@.len() == 0,
            r.review.subject_sha256@.len() == 0,
    {
        AcceptanceEvidence {
            scope: AcceptanceScope::Behavioral,
            rationale: String::new(),
            conditions: Vec::new(),
            verifications: Vec::new(),
            review: AcceptanceReview {
                outcome: Outcome::Unverified,
                reviewer: String::new(),
                reference: String::new(),
                rationale: String::new(),
                subject_sha256: String::new(),
            },
        }
    }
}


pub open spec fn condition_message() -> Seq<char> {
    "acceptance conditions need unique IDs, statements and authorities"@
}

pub open spec fn mapping_message() -> Seq<char> {
    "invalid, duplicate or unknown acceptance mapping"@
}

pub open spec fn method_message() -> Seq<char> {
    "automated mappings need a suite; review mappings need an automation limitation"@
}

pub open spec fn review_message() -> Seq<char> {
    "acceptance reviews allow only passed, failed or unverified"@
}

/// The condition identities, in order, or the first problem.
pub open spec fn conditions_scan(conditions: Seq<AcceptanceCondition>) -> Result<Seq<Seq<char>>, Seq<char>>
    decreases conditions.len(),
{
    if conditions.len() == 0 {
        Ok(Seq::empty())
    } else {
        match conditions_scan(conditions.drop_last()) {
            Err(e) => Err(e),
            Ok(ids) => {
                let c = conditions.last();
                if is_blank(c.id@) || is_blank(c.statement@) || is_blank(c.authority@) || ids.contains(c.id@) {
                    Err(condition_message())
                } else if !tracked_ok(c.source) {
                    Err(tracked_message())
                } else {
                    Ok(ids.push(c.id@))
                }
            },
        }
    }
}

/// The method of a mapping is backed as it must be: automated by a suite,
/// review by a stated automation limitation.
pub open spec fn method_ok(v: AcceptanceVerification) -> bool {
    match v.method {
        AcceptanceMethod::Automated => (v.suite matches Some(s) && !is_blank(s@)) && v.automation_limitation is None,
        AcceptanceMethod::Review => v.suite is None && (v.automation_limitation matches Some(l) && !is_blank(l@)),
    }
}

/// The mapped conditions, in order, or the first problem.
pub open spec fn mappings_scan(ids: Seq<Seq<char>>, verifications: Seq<AcceptanceVerification>) -> Result<Seq<Seq<char>>, Seq<char>>
    decreases verifications.len(),
{
    if verifications.len() == 0 {
        Ok(Seq::empty())
    } else {
        match mappings_scan(ids, verifications.drop_last()) {
            Err(e) => Err(e),
            Ok(mapped) => {
                let v = verifications.last();
                if !ids.contains(v.condition@) || mapped.contains(v.condition@) || is_blank(v.assertion@)
                    || is_blank(v.discriminating_case@) || !reviewable(v.outcome) {
                    Err(mapping_message())
                } else if !tracked_ok(v.target) {
                    Err(tracked_message())
                } else if !method_ok(v) {
                    Err(method_message())
                } else {
                    Ok(mapped.push(v.condition@))
                }
            },
        }
    }
}

/// An acceptance section whose inventory and mappings are well formed.
pub open spec fn acceptance_spec(a: AcceptanceEvidence) -> Result<(), Seq<char>> {
    match conditions_scan(a.conditions@) {
        Err(e) => Err(e),
        Ok(ids) => match mappings_scan(ids, a.verifications@) {
            Err(e) => Err(e),
            Ok(_) => if !reviewable(a.review.outcome) {
                Err(review_message())
            } else {
                Ok(())
            },
        },
    }
}

proof fn lemma_conditions_error(c: Seq<AcceptanceCondition>, n: int)
    requires
        0 <= n <= c.len(),
        conditions_scan(c.subrange(0, n)) is Err,
    ensures
        conditions_scan(c) == conditions_scan(c.subrange(0, n)),
    decreases c.len() - n,
{
    if n < c.len() {
        assert(c.subrange(0, n + 1).drop_last() =~= c.subrange(0, n));
        lemma_conditions_error(c, n + 1);
    } else {
        assert(c.subrange(0, n) =~= c);
    }
}

proof fn lemma_mappings_error(ids: Seq<Seq<char>>, v: Seq<AcceptanceVerification>, n: int)
    requires
        0 <= n <= v.len(),
        mappings_scan(ids, v.subrange(0, n)) is Err,
    ensures
        mappings_scan(ids, v) == mappings_scan(ids, v.subrange(0, n)),
    decreases v.len() - n,
{
    if n < v.len() {
        assert(v.subrange(0, n + 1).drop_last() =~= v.subrange(0, n));
        lemma_mappings_error(ids, v, n + 1);
    } else {
        assert(v.subrange(0, n) =~= v);
    }
}

pub open spec fn texts(v: Seq<String>) -> Seq<Seq<char>> {
    v.map_values(|s: String| s@)
}

fn listed(v: &Vec<String>, s: &String) -> (r: bool)
    ensures
        r == texts(v@).contains(s@),
{
    let mut i: usize = 0;
    while i < v.len()
        invariant
            i <= v@.len(),
            forall|k: int| 0 <= k < i ==> texts(v@)[k] != s@,
        decreases v.len() - i,
    {
        if same_text(v[i].as_str(), s.as_str()) {
            assert(texts(v@)[i as int] == s@);
            return true;
        }
        i = i + 1;
    }
    false
}

fn method_backed(v: &AcceptanceVerification) -> (r: bool)
    ensures
        r == method_ok(*v),
{
    match v.method {
        AcceptanceMethod::Automated => {
            let suite = match &v.suite {
                Some(s) => !blank(s.as_str()),
                None => false,
            };
            suite && v.automation_limitation.is_none()
        },
        AcceptanceMethod::Review => {
            let limitation = match &v.automation_limitation {
                Some(l) => !blank(l.as_str()),
                None => false,
            };
            v.suite.is_none() && limitation
        },
    }
}

impl AcceptanceEvidence {
    /// Checks the inventory and the mappings: unique, complete conditions
    /// with valid sources; one well-formed mapping at most per condition,
    /// backed by a suite or by a stated limitation; and reviewable outcomes.
    pub fn validate(&self) -> (r: Result<(), EvidenceError>)
        ensures
            match acceptance_spec(*self) {
                Ok(()) => r is Ok,
                Err(m) => r matches Err(EvidenceError::Semantic(x)) && x@ == m,
            },
    {
        proof {
            reveal_strlit("acceptance conditions need unique IDs, statements and authorities");
            reveal_strlit("invalid, duplicate or unknown acceptance mapping");
            reveal_strlit("automated mappings need a suite; review mappings need an automation limitation");
            reveal_strlit("acceptance reviews allow only passed, failed or unverified");
        }
        let mut ids: Vec<String> = Vec::new();
        let mut i: usize = 0;
        let ghost conditions = self.conditions@;
        assert(conditions.subrange(0, 0) =~= Seq::<AcceptanceCondition>::empty());
        assert(texts(ids@) =~= Seq::<Seq<char>>::empty());
        while i < self.conditions.len()
            invariant
                conditions == self.conditions@,
                i <= conditions.len(),
                conditions_scan(conditions.subrange(0, i as int)) == Ok::<Seq<Seq<char>>, Seq<char>>(texts(ids@)),
            decreases self.conditions.len() - i,
        {
            let c = &self.conditions[i];
            assert(conditions.subrange(0, i + 1).drop_last() =~= conditions.subrange(0, i as int));
            assert(conditions.subrange(0, i + 1).last() == *c);
            if blank(c.id.as_str()) || blank(c.statement.as_str()) || blank(c.authority.as_str()) || listed(&ids, &c.id) {
                proof { lemma_conditions_error(conditions, i + 1); }
                return Err(EvidenceError::Semantic(owned("acceptance conditions need unique IDs, statements and authorities")));
            }
            match c.source.validate() {
                Ok(()) => {},
                Err(e) => {
                    proof { lemma_conditions_error(conditions, i + 1); }
                    return Err(e);
                },
            }
            let ghost before = ids@;
            ids.push(crate::text::copy_string(&c.id));
            assert(texts(ids@) =~= texts(before).push(c.id@));
            i = i + 1;
        }
        assert(conditions.subrange(0, conditions.len() as int) =~= conditions);
        let ghost known = texts(ids@);
        let mut mapped: Vec<String> = Vec::new();
        let mut j: usize = 0;
        let ghost verifications = self.verifications@;
        assert(verifications.subrange(0, 0) =~= Seq::<AcceptanceVerification>::empty());
        assert(texts(mapped@) =~= Seq::<Seq<char>>::empty());
        while j < self.verifications.len()
            invariant
                verifications == self.verifications@,
                known == texts(ids@),
                conditions_scan(self.conditions@) == Ok::<Seq<Seq<char>>, Seq<char>>(known),
                j <= verifications.len(),
                mappings_scan(known, verifications.subrange(0, j as int)) == Ok::<Seq<Seq<char>>, Seq<char>>(texts(mapped@)),
            decreases self.verifications.len() - j,
        {
            let v = &self.verifications[j];
            assert(verifications.subrange(0, j + 1).drop_last() =~= verifications.subrange(0, j as int));
            assert(verifications.subrange(0, j + 1).last() == *v);
            if !listed(&ids, &v.condition) || listed(&mapped, &v.condition) || blank(v.assertion.as_str())
                || blank(v.discriminating_case.as_str()) || !review_outcome(v.outcome) {
                proof { lemma_mappings_error(known, verifications, j + 1); }
                return Err(EvidenceError::Semantic(owned("invalid, duplicate or unknown acceptance mapping")));
            }
            match v.target.validate() {
                Ok(()) => {},
                Err(e) => {
                    proof { lemma_mappings_error(known, verifications, j + 1); }
                    return Err(e);
                },
            }
            if !method_backed(v) {
                proof { lemma_mappings_error(known, verifications, j + 1); }
                return Err(EvidenceError::Semantic(owned("automated mappings need a suite; review mappings need an automation limitation")));
            }
            let ghost before = mapped@;
            mapped.push(crate::text::copy_string(&v.condition));
            assert(texts(mapped@) =~= texts(before).push(v.condition@));
            j = j + 1;
        }
        assert(verifications.subrange(0, verifications.len() as int) =~= verifications);
        if !review_outcome(self.review.outcome) {
            return Err(EvidenceError::Semantic(owned("acceptance reviews allow only passed, failed or unverified")));
        }
        Ok(())
    }
}

// ---------------------------------------------------------------------------
// The staged file behind a tracked reference

/// The number of NUL characters in a text.
pub open spec fn nul_count(s: Seq<char>) -> nat
    decreases s.len(),
{
    if s.len() == 0 {
        0
    } else {
        nul_count(s.drop_last()) + if s.last() == '\0' { 1nat } else { 0nat }
    }
}

pub open spec fn begins_with(s: Seq<char>, p: Seq<char>) -> bool {
    p.len() <= s.len() && s.subrange(0, p.len() as int) == p
}

pub open spec fn finishes_with(s: Seq<char>, p: Seq<char>) -> bool {
    p.len() <= s.len() && s.subrange(s.len() - p.len(), s.len() as int) == p
}

/// The index entry `git ls-files --stage -z` lists for exactly one staged
/// regular file at the path: a regular or executable mode, stage zero, the
/// path, and a single terminating NUL.
pub open spec fn staged_entry_ok(entry: Seq<char>, path: Seq<char>) -> bool {
    &&& begins_with(entry, "100644 "@) || begins_with(entry, "100755 "@)
    &&& finishes_with(entry, " 0\t"@ + path + seq!['\0'])
    &&& nul_count(entry) == 1
}

pub open spec fn entry_message() -> Seq<char> {
    "acceptance reference must identify one staged regular file"@
}

/// Largest tracked source inspected, in bytes.
pub const MAX_SOURCE_BYTES: usize = 8388608;

pub open spec fn size_invalid_message() -> Seq<char> {
    "invalid acceptance source size"@
}

pub open spec fn size_exceeds_message() -> Seq<char> {
    "acceptance source exceeds 8 MiB"@
}

/// The size `git cat-file -s` reported, once trimmed and read as a `usize`,
/// if it is within the limit; otherwise why not.
pub open spec fn source_size(text: Seq<char>) -> Result<nat, Seq<char>> {
    match unsigned_text(trimmed(text)) {
        Some(v) => if v > usize::MAX {
            Err(size_invalid_message())
        } else if v > MAX_SOURCE_BYTES {
            Err(size_exceeds_message())
        } else {
            Ok(v)
        },
        None => Err(size_invalid_message()),
    }
}

pub open spec fn blob_message() -> Seq<char> {
    "acceptance source digest or excerpt does not match the staged file"@
}

/// The staged bytes have the reviewed digest and, as UTF-8 text, contain the excerpt.
pub open spec fn blob_matches(e: TrackedEvidence, bytes: Seq<u8>) -> bool {
    &&& sha256_hex(bytes) == e.sha256@
    &&& vstd::utf8::valid_utf8(bytes)
    &&& contains_text(vstd::utf8::decode_utf8(bytes), e.excerpt@)
}

fn nul_count_exec(v: &Vec<char>) -> (r: usize)
    ensures
        r == nul_count(v@),
{
    let mut n: usize = 0;
    let mut i: usize = 0;
    assert(v@.subrange(0, 0) =~= Seq::<char>::empty());
    while i < v.len()
        invariant
            i <= v@.len(),
            n == nul_count(v@.subrange(0, i as int)),
            n <= i,
        decreases v.len() - i,
    {
        assert(v@.subrange(0, i + 1).drop_last() =~= v@.subrange(0, i as int));
        if v[i] == '\0' {
            n = n + 1;
        }
        i = i + 1;
    }
    assert(v@.subrange(0, v@.len() as int) =~= v@);
    n
}

impl TrackedEvidence {
    /// Checks the staged index entry of the reference's path.
    pub fn verify_entry(&self, entry: &str) -> (r: Result<(), EvidenceError>)
        ensures
            r is Ok <==> staged_entry_ok(entry@, self.path@),
            r matches Err(EvidenceError::Semantic(m)) ==> m@ == entry_message(),
    {
        proof {
            reveal_strlit("100644 ");
            reveal_strlit("100755 ");
            reveal_strlit(" 0\t");
        }
        let v = chars_of(entry);
        let mut tail = chars_of(" 0\t");
        let path = chars_of(self.path.as_str());
        let mut i: usize = 0;
        let ghost head = tail@;
        while i < path.len()
            invariant
                i <= path@.len(),
                tail@ == head + path@.subrange(0, i as int),
            decreases path.len() - i,
        {
            tail.push(path[i]);
            assert(path@.subrange(0, i + 1) =~= path@.subrange(0, i as int).push(path@[i as int]));
            i = i + 1;
        }
        tail.push('\0');
        assert(path@.subrange(0, path@.len() as int) =~= path@);
        assert(tail@ =~= " 0\t"@ + self.path@ + seq!['\0']);
        let ok = (starts_with_chars(&v, "100644 ") || starts_with_chars(&v, "100755 "))
            && ends_with_chars(&v, &tail) && nul_count_exec(&v) == 1;
        if ok {
            Ok(())
        } else {
            Err(EvidenceError::Semantic(owned("acceptance reference must identify one staged regular file")))
        }
    }

    /// Reads the staged size and refuses an unreadable or oversized source
    /// before its content is fetched.
    pub fn verify_size(text: &str) -> (r: Result<usize, EvidenceError>)
        ensures
            match source_size(text@) {
                Ok(v) => r matches Ok(n) && n == v,
                Err(m) => r matches Err(EvidenceError::Semantic(x)) && x@ == m,
            },
    {
        let v = chars_of(text);
        let (a, b) = trim_bounds(&v);
        let ghost t = v@.subrange(a as int, b as int);
        let start: usize = if b - a > 1 && v[a] == '+' { a + 1 } else { a };
        let mut acc: u128 = 0;
        let mut i: usize = start;
        assert(v@.subrange(start as int, start as int) =~= Seq::<char>::empty());
        let mut digits_ok = start < b;
        while i < b
            invariant
                a <= start <= i <= b <= v@.len(),
                t == v@.subrange(a as int, b as int),
                t == trimmed(text@),
                v@ == text@,
                start == a + 1 ==> b - a > 1 && v@[a as int] == '+',
                start == a ==> !(b - a > 1 && v@[a as int] == '+'),
                start <= a + 1,
                acc == digits_value(v@.subrange(start as int, i as int)),
                acc <= usize::MAX,
                digits_ok == (start < b),
                forall|q: int| start <= q < i ==> '0' <= #[trigger] v@[q] <= '9',
            decreases b - i,
        {
            let c = v[i];
            if !('0' <= c && c <= '9') {
                proof {
                    assert(t[i - a] == c);
                    if start == a {
                        assert(!all_digits(t));
                    } else {
                        assert(t.drop_first()[i - a - 1] == c);
                        assert(t[0] == v@[a as int]);
                        assert(!all_digits(t));
                        assert(!all_digits(t.drop_first()));
                    }
                }
                return Err(EvidenceError::Semantic(owned("invalid acceptance source size")));
            }
            proof {
                assert(v@.subrange(start as int, i + 1).drop_last() =~= v@.subrange(start as int, i as int));
            }
            acc = acc * 10 + (c as u32 - 48) as u128;
            i = i + 1;
            if acc > usize::MAX as u128 {
                proof {
                    let rest = v@.subrange(start as int, b as int);
                    assert(rest.subrange(0, i - start) =~= v@.subrange(start as int, i as int));
                    lemma_digits_prefix(rest, i - start);
                    if start == a + 1 {
                        assert(rest =~= t.drop_first());
                        assert(t[0] == v@[a as int]);
                        assert(!all_digits(t));
                    } else {
                        assert(rest =~= t);
                    }
                }
                return Err(EvidenceError::Semantic(owned("invalid acceptance source size")));
            }
        }
        proof {
            if start == a + 1 {
                assert(v@.subrange(start as int, b as int) =~= t.drop_first());
                assert(t[0] == v@[a as int]);
                assert(!all_digits(t));
            } else {
                assert(v@.subrange(start as int, b as int) =~= t);
            }
        }
        if !digits_ok {
            proof {
                if start == a {
                    assert(t.len() == 0 || (start == b));
                }
            }
            return Err(EvidenceError::Semantic(owned("invalid acceptance source size")));
        }
        let n = acc as usize;
        if n > MAX_SOURCE_BYTES {
            return Err(EvidenceError::Semantic(owned("acceptance source exceeds 8 MiB")));
        }
        Ok(n)
    }

    /// Checks the staged bytes against the reviewed digest and excerpt.
    pub fn verify_blob(&self, bytes: &[u8]) -> (r: Result<(), EvidenceError>)
        ensures
            r is Ok <==> blob_matches(*self, bytes@),
            r matches Err(EvidenceError::Semantic(m)) ==> m@ == blob_message(),
    {
        let digest = sha256_hex_of(bytes);
        let found = same_text(digest.as_str(), self.sha256.as_str()) && match utf8_text(bytes) {
            Some(text) => contains_chars(&chars_of(text.as_str()), &chars_of(self.excerpt.as_str())),
            None => false,
        };
        if found {
            Ok(())
        } else {
            Err(EvidenceError::Semantic(owned("acceptance source digest or excerpt does not match the staged file")))
        }
    }
}

} // verus!
