//! Read-only inspection of JUnit XML reports: counts of the case elements
//! actually present and the fixed diagnostics that keep an incomplete or
//! ambiguous report from passing. A report never qualifies a gate.
//!
//! The XML text is parsed by `roxmltree` into a flat list of nodes in
//! document order; everything decided about the report is decided here,
//! over that list.
use vstd::prelude::*;
use sha2::Digest;
use roxmltree::{Document, ParsingOptions};
use crate::outcome::Outcome;
use crate::text::{is_blank, blank, owned, same_text, chars_of, text_views};

verus! {

/// Largest report accepted, in bytes.
pub const MAX_REPORT_BYTES: usize = 8388608;
/// Largest number of XML nodes the parser may produce.
pub const MAX_XML_NODES: u32 = 100000;
/// Deepest element nesting accepted below the document.
pub const MAX_NESTING: usize = 64;

/// One attribute of an element: its local name and its value.
#[derive(Debug)]
pub struct XmlAttribute {
    pub name: String,
    pub value: String,
}

/// One node of a parsed document, in document order. `id` is the node's
/// position in the document and `parent` the position of its parent; the
/// document node itself comes first and has no parent. Nodes other than
/// elements have an empty name and no attributes.
#[derive(Debug)]
pub struct XmlNode {
    pub id: usize,
    pub parent: Option<usize>,
    pub element: bool,
    pub name: String,
    pub namespaced: bool,
    pub attributes: Vec<XmlAttribute>,
}

pub struct XmlNodeView {
    pub id: usize,
    pub parent: Option<usize>,
    pub element: bool,
    pub name: Seq<char>,
    pub namespaced: bool,
    pub attributes: Seq<(Seq<char>, Seq<char>)>,
}

pub open spec fn attribute_views(a: Seq<XmlAttribute>) -> Seq<(Seq<char>, Seq<char>)> {
    a.map_values(|x: XmlAttribute| (x.name@, x.value@))
}

impl View for XmlNode {
    type V = XmlNodeView;

    open spec fn view(&self) -> XmlNodeView {
        XmlNodeView {
            id: self.id,
            parent: self.parent,
            element: self.element,
            name: self.name@,
            namespaced: self.namespaced,
            attributes: attribute_views(self.attributes@),
        }
    }
}

pub open spec fn node_views(ns: Seq<XmlNode>) -> Seq<XmlNodeView> {
    ns.map_values(|n: XmlNode| n@)
}

/// Why a report could not be inspected.
#[derive(Clone, Copy, Debug, PartialEq, Eq, Structural)]
pub enum JunitError {
    Oversized,
    NotUtf8,
    InvalidXml,
    UnsupportedRoot,
    TooDeep,
}

pub open spec fn junit_error_message(e: JunitError) -> Seq<char> {
    match e {
        JunitError::Oversized => "JUnit input exceeds the 8 MiB limit"@,
        JunitError::NotUtf8 => "JUnit input must be UTF-8"@,
        JunitError::InvalidXml => "invalid JUnit XML, prohibited DTD, or XML node limit exceeded"@,
        JunitError::UnsupportedRoot => "expected an unnamespaced testsuite or testsuites root"@,
        JunitError::TooDeep => "JUnit nesting exceeds the 64-level limit"@,
    }
}

impl JunitError {
    /// The fixed message of the error; it never echoes report content.
    pub fn message(&self) -> (r: &'static str)
        ensures
            r@ == junit_error_message(*self),
    {
        match self {
            JunitError::Oversized => "JUnit input exceeds the 8 MiB limit",
            JunitError::NotUtf8 => "JUnit input must be UTF-8",
            JunitError::InvalidXml => "invalid JUnit XML, prohibited DTD, or XML node limit exceeded",
            JunitError::UnsupportedRoot => "expected an unnamespaced testsuite or testsuites root",
            JunitError::TooDeep => "JUnit nesting exceeds the 64-level limit",
        }
    }
}

// ---------------------------------------------------------------------------
// Outside computations

/// The nodes `roxmltree` parses from a text with the given options, or none
/// when it rejects the text.
pub uninterp spec fn xml_nodes(text: Seq<char>, allow_dtd: bool, nodes_limit: u32) -> Option<Seq<XmlNodeView>>;

/// Parses XML with `roxmltree::Document::parse_with_options` and lists every
/// node of the document (`Document::descendants`) with its position, its
/// parent's position, whether it is an element, its local tag name, whether
/// that name has a namespace, and its attributes' local names and values.
/// The contract names the result and claims nothing else of the parser.
#[verifier::external_body]
fn parse_xml(text: &str, allow_dtd: bool, nodes_limit: u32) -> (r: Option<Vec<XmlNode>>)
    ensures
        r matches Some(v) ==> xml_nodes(text@, allow_dtd, nodes_limit) == Some(node_views(v@)),
        r is None ==> xml_nodes(text@, allow_dtd, nodes_limit) is None,
{
    let options = ParsingOptions { allow_dtd, nodes_limit, entity_resolver: None };
    let doc = Document::parse_with_options(text, options).ok()?;
    Some(doc.descendants().map(|n| XmlNode {
        id: n.id().get_usize(),
        parent: n.parent().map(|p| p.id().get_usize()),
        element: n.is_element(),
        name: n.tag_name().name().to_string(),
        namespaced: n.tag_name().namespace().is_some(),
        attributes: n.attributes().map(|a| XmlAttribute { name: a.name().to_string(), value: a.value().to_string() }).collect(),
    }).collect())
}

/// 64 lowercase hexadecimal digits, as a SHA-256 digest is written.
pub open spec fn lower_hex_digest(s: Seq<char>) -> bool {
    s.len() == 64 && forall|i: int| 0 <= i < s.len() ==> ('0' <= #[trigger] s[i] <= '9') || ('a' <= s[i] <= 'f')
}

/// The lowercase hexadecimal SHA-256 digest of some bytes.
pub uninterp spec fn sha256_hex(bytes: Seq<u8>) -> Seq<char>;

/// `format!("{:x}", sha2::Sha256::digest(bytes))`; the contract names the
/// digest, which is written as 64 lowercase hexadecimal digits.
#[verifier::external_body]
pub(crate) fn sha256_hex_of(bytes: &[u8]) -> (r: String)
    ensures
        r@ == sha256_hex(bytes@),
        r@.len() == 64,
        forall|i: int| 0 <= i < r@.len() ==> ('0' <= #[trigger] r@[i] <= '9') || ('a' <= r@[i] <= 'f'),
{
    format!("{:x}", sha2::Sha256::digest(bytes))
}

/// `std::str::from_utf8`: the text the bytes encode, exactly when they are
/// valid UTF-8.
#[verifier::external_body]
pub(crate) fn utf8_text(bytes: &[u8]) -> (r: Option<String>)
    ensures
        r is Some <==> vstd::utf8::valid_utf8(bytes@),
        r matches Some(s) ==> s@ == vstd::utf8::decode_utf8(bytes@),
{
    std::str::from_utf8(bytes).ok().map(|s| s.to_string())
}

// ---------------------------------------------------------------------------
// The node list as a tree

/// Whether a node has a parent placed before position `i`.
pub open spec fn parent_before(v: XmlNodeView, i: int) -> bool {
    match v.parent {
        Some(p) => (p as int) < i,
        None => false,
    }
}

/// A node list that is a tree in document order: the document node first,
/// every other node after its parent.
pub open spec fn arena_ok(vs: Seq<XmlNodeView>) -> bool {
    &&& vs.len() >= 1
    &&& vs[0].parent is None
    &&& forall|i: int| 0 <= i < vs.len() ==> (#[trigger] vs[i]).id == i
    &&& forall|i: int| 1 <= i < vs.len() ==> parent_before(#[trigger] vs[i], i)
}

/// Whether node `j` is node `a` or lies below it.
pub open spec fn descends(vs: Seq<XmlNodeView>, j: int, a: int) -> bool
    decreases j,
{
    if j == a {
        true
    } else if j < 0 || j >= vs.len() {
        false
    } else {
        match vs[j].parent {
            Some(p) => if (p as int) < j { descends(vs, p as int, a) } else { false },
            None => false,
        }
    }
}

/// The number of ancestors of node `j`, the document node included.
pub open spec fn depth(vs: Seq<XmlNodeView>, j: int) -> nat
    decreases j,
{
    if 0 <= j < vs.len() {
        match vs[j].parent {
            Some(p) => if (p as int) < j { depth(vs, p as int) + 1 } else { 0 },
            None => 0,
        }
    } else {
        0
    }
}

/// The first element whose parent is the document node, from position `i` on.
pub open spec fn first_root_from(vs: Seq<XmlNodeView>, i: int) -> Option<int>
    decreases vs.len() - i,
{
    if i < 0 || i >= vs.len() {
        None
    } else if vs[i].element && vs[i].parent == Some(0usize) {
        Some(i)
    } else {
        first_root_from(vs, i + 1)
    }
}

/// The root element of the document.
pub open spec fn root_of(vs: Seq<XmlNodeView>) -> Option<int> {
    first_root_from(vs, 0)
}

pub open spec fn is_suite_name(s: Seq<char>) -> bool {
    s == "testsuites"@ || s == "testsuite"@
}

/// The elements the inspection walks: the root element and every element below it.
pub open spec fn in_report(vs: Seq<XmlNodeView>, r: int, k: int) -> bool {
    0 <= k < vs.len() && vs[k].element && descends(vs, k, r)
}

proof fn lemma_descends_below(vs: Seq<XmlNodeView>, x: int, j: int)
    requires
        descends(vs, x, j),
        x != j,
    ensures
        x > j,
    decreases x,
{
    match vs[x].parent {
        Some(p) => {
            if p as int != j {
                lemma_descends_below(vs, p as int, j);
            }
        },
        None => {},
    }
}

fn arena_valid(nodes: &Vec<XmlNode>) -> (r: bool)
    ensures
        r == arena_ok(node_views(nodes@)),
{
    let ghost vs = node_views(nodes@);
    if nodes.len() == 0 || nodes[0].parent.is_some() {
        return false;
    }
    let mut i: usize = 0;
    while i < nodes.len()
        invariant
            vs == node_views(nodes@),
            vs.len() >= 1,
            vs[0].parent is None,
            i <= nodes@.len(),
            forall|q: int| 0 <= q < i ==> (#[trigger] vs[q]).id == q,
            forall|q: int| 1 <= q < i ==> parent_before(#[trigger] vs[q], q),
        decreases nodes.len() - i,
    {
        if nodes[i].id != i {
            assert(vs[i as int].id != i);
            return false;
        }
        if i >= 1 {
            match nodes[i].parent {
                Some(p) => {
                    if p >= i {
                        assert(!parent_before(vs[i as int], i as int));
                        return false;
                    }
                },
                None => {
                    assert(vs[i as int].parent is None);
                    return false;
                },
            }
        }
        i = i + 1;
    }
    true
}

fn root_index(nodes: &Vec<XmlNode>) -> (r: Option<usize>)
    ensures
        match r {
            Some(i) => root_of(node_views(nodes@)) == Some(i as int) && i < nodes@.len(),
            None => root_of(node_views(nodes@)) is None,
        },
{
    let ghost vs = node_views(nodes@);
    let mut i: usize = 0;
    while i < nodes.len()
        invariant
            vs == node_views(nodes@),
            i <= nodes@.len(),
            first_root_from(vs, 0) == first_root_from(vs, i as int),
        decreases nodes.len() - i,
    {
        if nodes[i].element && nodes[i].parent == Some(0usize) {
            return Some(i);
        }
        i = i + 1;
    }
    None
}

/// Whether node `k` is `a` or below it, walking up from `k`.
fn descends_exec(nodes: &Vec<XmlNode>, k: usize, a: usize) -> (r: bool)
    requires
        arena_ok(node_views(nodes@)),
        k < nodes@.len(),
    ensures
        r == descends(node_views(nodes@), k as int, a as int),
{
    let ghost vs = node_views(nodes@);
    let mut cur: usize = k;
    while cur > a
        invariant
            vs == node_views(nodes@),
            arena_ok(vs),
            cur <= k < vs.len(),
            descends(vs, k as int, a as int) == descends(vs, cur as int, a as int),
        decreases cur,
    {
        assert(vs[cur as int].parent is Some);
        match nodes[cur].parent {
            Some(p) => { cur = p; },
            None => { return false; },
        }
    }
    proof {
        if cur != a && descends(vs, cur as int, a as int) {
            lemma_descends_below(vs, cur as int, a as int);
        }
    }
    cur == a
}

// ---------------------------------------------------------------------------
// What one element shows

/// The value of the first attribute with a local name, as `Node::attribute` finds it.
pub open spec fn first_value(a: Seq<(Seq<char>, Seq<char>)>, name: Seq<char>) -> Option<Seq<char>>
    decreases a.len(),
{
    if a.len() == 0 {
        None
    } else if a[0].0 == name {
        Some(a[0].1)
    } else {
        first_value(a.drop_first(), name)
    }
}

/// An attribute's value, or empty text when it is absent.
pub open spec fn value_or_empty(a: Seq<(Seq<char>, Seq<char>)>, name: Seq<char>) -> Seq<char> {
    match first_value(a, name) {
        Some(v) => v,
        None => Seq::empty(),
    }
}

/// `Node::has_tag_name` with a bare local name.
pub open spec fn is_tag(v: XmlNodeView, name: Seq<char>) -> bool {
    v.element && v.name == name
}

/// Whether node `k` has a child element with a local name.
pub open spec fn has_child(vs: Seq<XmlNodeView>, k: int, name: Seq<char>) -> bool {
    exists|c: int| 0 <= c < vs.len() && (#[trigger] vs[c]).parent == Some(k as usize) && is_tag(vs[c], name)
}

/// Whether the parent of node `k` is named `a` or `b`.
pub open spec fn parent_named(vs: Seq<XmlNodeView>, k: int, a: Seq<char>, b: Seq<char>) -> bool {
    match vs[k].parent {
        Some(p) => (p as int) < vs.len() && (vs[p as int].name == a || vs[p as int].name == b),
        None => false,
    }
}

pub open spec fn is_result_name(s: Seq<char>) -> bool {
    s == "failure"@ || s == "error"@ || s == "skipped"@
}

pub open spec fn is_retry_name(s: Seq<char>) -> bool {
    s == "flakyFailure"@ || s == "flakyError"@ || s == "rerunFailure"@ || s == "rerunError"@
}

/// Elements that carry nothing the inspection reads.
pub open spec fn is_quiet_name(s: Seq<char>) -> bool {
    s == "system-out"@ || s == "system-err"@ || s == "properties"@ || s == "property"@
}

pub open spec fn is_known_name(s: Seq<char>) -> bool {
    is_suite_name(s) || s == "testcase"@ || is_result_name(s) || is_retry_name(s) || is_quiet_name(s)
}

/// Attribute names a suite element may carry without review.
pub open spec fn suite_attribute(s: Seq<char>) -> bool {
    s == "name"@ || s == "id"@ || s == "package"@ || s == "timestamp"@ || s == "hostname"@
        || s == "time"@ || s == "file"@ || s == "tests"@ || s == "failures"@ || s == "errors"@
        || s == "skipped"@ || s == "disabled"@ || s == "assertions"@
}

/// Attribute names a case element may carry without review.
pub open spec fn case_attribute(s: Seq<char>) -> bool {
    s == "name"@ || s == "classname"@ || s == "time"@ || s == "file"@ || s == "line"@ || s == "assertions"@
}

pub open spec fn has_foreign_attribute(a: Seq<(Seq<char>, Seq<char>)>, suite: bool) -> bool {
    exists|i: int| 0 <= i < a.len() && !(if suite { suite_attribute((#[trigger] a[i]).0) } else { case_attribute(a[i].0) })
}

/// How many of the result children error, failure and skipped a case has.
pub open spec fn result_count(vs: Seq<XmlNodeView>, k: int) -> int {
    (if has_child(vs, k, "error"@) { 1int } else { 0int }) + (if has_child(vs, k, "failure"@) { 1int } else { 0int })
        + (if has_child(vs, k, "skipped"@) { 1int } else { 0int })
}

/// Decimal digits only, at least one.
pub open spec fn all_digits(s: Seq<char>) -> bool {
    s.len() > 0 && forall|i: int| 0 <= i < s.len() ==> '0' <= #[trigger] s[i] <= '9'
}

pub open spec fn digits_value(s: Seq<char>) -> nat
    decreases s.len(),
{
    if s.len() == 0 {
        0
    } else {
        digits_value(s.drop_last()) * 10 + ((s.last() as int - 48) as nat)
    }
}

/// The number `str::parse::<usize>` reads from a text, before any bound:
/// decimal digits with an optional leading `+`.
pub open spec fn unsigned_text(s: Seq<char>) -> Option<nat> {
    if all_digits(s) {
        Some(digits_value(s))
    } else if s.len() > 1 && s[0] == '+' && all_digits(s.drop_first()) {
        Some(digits_value(s.drop_first()))
    } else {
        None
    }
}

/// The number of positions below `n` that satisfy a predicate.
pub open spec fn count_where(n: int, p: spec_fn(int) -> bool) -> nat
    decreases n,
{
    if n <= 0 {
        0
    } else {
        count_where(n - 1, p) + if p(n - 1) { 1nat } else { 0nat }
    }
}

/// A case element at or below node `j` that has the given result child (any case when none is given).
pub open spec fn observed_pred(vs: Seq<XmlNodeView>, j: int, result: Option<Seq<char>>) -> spec_fn(int) -> bool {
    |k: int| descends(vs, k, j) && is_tag(vs[k], "testcase"@) && match result {
        None => true,
        Some(x) => has_child(vs, k, x),
    }
}

/// The cases a suite element actually holds, as its summary attribute counts them.
pub open spec fn observed(vs: Seq<XmlNodeView>, j: int, result: Option<Seq<char>>) -> nat {
    count_where(vs.len() as int, observed_pred(vs, j, result))
}

/// Whether a declared summary attribute of suite `j` differs from what is observed.
pub open spec fn count_attr_differs(vs: Seq<XmlNodeView>, j: int, attr: Seq<char>, result: Option<Seq<char>>) -> bool {
    match first_value(vs[j].attributes, attr) {
        Some(v) => unsigned_text(v) != Some(observed(vs, j, result)),
        None => false,
    }
}

pub open spec fn counts_differ(vs: Seq<XmlNodeView>, j: int) -> bool {
    count_attr_differs(vs, j, "tests"@, None) || count_attr_differs(vs, j, "failures"@, Some("failure"@))
        || count_attr_differs(vs, j, "errors"@, Some("error"@)) || count_attr_differs(vs, j, "skipped"@, Some("skipped"@))
}

pub open spec fn disabled_cases(v: XmlNodeView) -> bool {
    match first_value(v.attributes, "disabled"@) {
        Some(x) => x != "0"@,
        None => false,
    }
}

/// The diagnostics an inspection may report, in the order it lists them.
#[derive(Clone, Copy, Debug, PartialEq, Eq, Structural)]
pub enum Finding {
    Conflict,
    CasePosition,
    ResultPosition,
    CaseIdentity,
    Counts,
    Disabled,
    Duplicate,
    Namespaced,
    NoCases,
    CaseAttributes,
    SuiteAttributes,
    Retry,
    Skipped,
    Unsupported,
    Nesting,
}

/// Whether element `k` of the report shows a finding by itself. The
/// findings about the whole report (duplicates, no cases, skipped cases)
/// are never shown by one element.
#[verifier::opaque]
pub open spec fn node_shows(vs: Seq<XmlNodeView>, r: int, k: int, f: Finding) -> bool {
    let v = vs[k];
    match f {
        Finding::Conflict => v.name == "testcase"@ && result_count(vs, k) > 1,
        Finding::CasePosition => v.name == "testcase"@ && !parent_named(vs, k, "testsuite"@, "testsuite"@),
        Finding::ResultPosition => is_result_name(v.name) && !parent_named(vs, k, "testcase"@, "testcase"@),
        Finding::CaseIdentity => v.name == "testcase"@ && is_blank(value_or_empty(v.attributes, "name"@)),
        Finding::Counts => is_suite_name(v.name) && counts_differ(vs, k),
        Finding::Disabled => is_suite_name(v.name) && disabled_cases(v),
        Finding::Namespaced => v.namespaced,
        Finding::CaseAttributes => v.name == "testcase"@ && has_foreign_attribute(v.attributes, false),
        Finding::SuiteAttributes => is_suite_name(v.name) && has_foreign_attribute(v.attributes, true),
        Finding::Retry => is_retry_name(v.name),
        Finding::Unsupported => !is_known_name(v.name),
        Finding::Nesting => is_suite_name(v.name) && k != r && !parent_named(vs, k, "testsuites"@, "testsuite"@),
        Finding::Duplicate | Finding::NoCases | Finding::Skipped => false,
    }
}

/// Whether some element of the report before position `n` shows a finding.
pub open spec fn shown_upto(vs: Seq<XmlNodeView>, r: int, n: int, f: Finding) -> bool {
    exists|k: int| 0 <= k < n && in_report(vs, r, k) && #[trigger] node_shows(vs, r, k, f)
}

#[verifier::opaque]
pub open spec fn case_in_report(vs: Seq<XmlNodeView>, r: int, k: int) -> bool {
    in_report(vs, r, k) && vs[k].name == "testcase"@
}

/// Suite name, class name and name of a case: what tells aggregated cases apart.
#[verifier::opaque]
pub open spec fn identity(vs: Seq<XmlNodeView>, k: int) -> (Seq<char>, Seq<char>, Seq<char>) {
    let suite = match vs[k].parent {
        Some(p) => if (p as int) < vs.len() { value_or_empty(vs[p as int].attributes, "name"@) } else { Seq::empty() },
        None => Seq::empty(),
    };
    (suite, value_or_empty(vs[k].attributes, "classname"@), value_or_empty(vs[k].attributes, "name"@))
}

/// Two cases of the report before position `n` with the same identity.
pub open spec fn duplicate_upto(vs: Seq<XmlNodeView>, r: int, n: int) -> bool {
    exists|a: int, b: int| 0 <= a < b < n && #[trigger] case_in_report(vs, r, a) && #[trigger] case_in_report(vs, r, b)
        && identity(vs, a) == identity(vs, b)
}

pub open spec fn case_pred(vs: Seq<XmlNodeView>, r: int) -> spec_fn(int) -> bool {
    |k: int| case_in_report(vs, r, k)
}

pub open spec fn error_pred(vs: Seq<XmlNodeView>, r: int) -> spec_fn(int) -> bool {
    |k: int| case_in_report(vs, r, k) && has_child(vs, k, "error"@)
}

pub open spec fn failure_pred(vs: Seq<XmlNodeView>, r: int) -> spec_fn(int) -> bool {
    |k: int| case_in_report(vs, r, k) && !has_child(vs, k, "error"@) && has_child(vs, k, "failure"@)
}

pub open spec fn skipped_pred(vs: Seq<XmlNodeView>, r: int) -> spec_fn(int) -> bool {
    |k: int| case_in_report(vs, r, k) && !has_child(vs, k, "error"@) && !has_child(vs, k, "failure"@)
        && has_child(vs, k, "skipped"@)
}

pub open spec fn retry_pred(vs: Seq<XmlNodeView>, r: int) -> spec_fn(int) -> bool {
    |k: int| in_report(vs, r, k) && is_retry_name(vs[k].name)
}

// ---------------------------------------------------------------------------
// Facts about nodes, computed

proof fn lemma_count_le(n: int, p: spec_fn(int) -> bool)
    ensures
        count_where(n, p) <= if n < 0 { 0 } else { n },
    decreases n,
{
    if n > 0 {
        lemma_count_le(n - 1, p);
    }
}

/// For every node, whether it has a child element with a local name.
fn child_flags(nodes: &Vec<XmlNode>, name: &str) -> (r: Vec<bool>)
    requires
        arena_ok(node_views(nodes@)),
    ensures
        r@.len() == nodes@.len(),
        forall|q: int| 0 <= q < r@.len() ==> r@[q] == has_child(node_views(nodes@), q, name@),
{
    let ghost vs = node_views(nodes@);
    let n = nodes.len();
    let mut r: Vec<bool> = Vec::new();
    while r.len() < n
        invariant
            r@.len() <= n,
            forall|q: int| 0 <= q < r@.len() ==> !r@[q],
        decreases n - r.len(),
    {
        r.push(false);
    }
    let mut c: usize = 0;
    while c < n
        invariant
            vs == node_views(nodes@),
            arena_ok(vs),
            n == vs.len(),
            r@.len() == n,
            c <= n,
            forall|q: int| 0 <= q < n ==> r@[q] == exists|c2: int| 0 <= c2 < c && (#[trigger] vs[c2]).parent == Some(q as usize)
                && is_tag(vs[c2], name@),
        decreases n - c,
    {
        let ghost before = r@;
        let hit = nodes[c].element && same_text(nodes[c].name.as_str(), name);
        if hit {
            if let Some(p) = nodes[c].parent {
                assert(c >= 1);
                assert(parent_before(vs[c as int], c as int));
                r.set(p, true);
            }
        }
        assert forall|q: int| 0 <= q < n implies r@[q] == exists|c2: int| 0 <= c2 < c + 1 && (#[trigger] vs[c2]).parent
            == Some(q as usize) && is_tag(vs[c2], name@) by {
            if vs[c as int].parent == Some(q as usize) && is_tag(vs[c as int], name@) {
                assert(r@[q]);
            } else {
                assert(r@[q] == before[q]);
                if exists|c2: int| 0 <= c2 < c + 1 && (#[trigger] vs[c2]).parent == Some(q as usize) && is_tag(vs[c2], name@) {
                    let c2 = choose|c2: int| 0 <= c2 < c + 1 && (#[trigger] vs[c2]).parent == Some(q as usize) && is_tag(vs[c2], name@);
                    assert(c2 < c);
                }
            }
        }
        c = c + 1;
    }
    r
}

/// For every node, whether it lies at or below `root`, and its depth.
fn tree_facts(nodes: &Vec<XmlNode>, root: usize) -> (res: (Vec<bool>, Vec<usize>))
    requires
        arena_ok(node_views(nodes@)),
    ensures
        res.0@.len() == nodes@.len(),
        res.1@.len() == nodes@.len(),
        forall|q: int| 0 <= q < nodes@.len() ==> res.0@[q] == descends(node_views(nodes@), q, root as int),
        forall|q: int| 0 <= q < nodes@.len() ==> res.1@[q] == depth(node_views(nodes@), q),
{
    let ghost vs = node_views(nodes@);
    let n = nodes.len();
    let mut inside: Vec<bool> = Vec::new();
    let mut depths: Vec<usize> = Vec::new();
    let mut k: usize = 0;
    while k < n
        invariant
            vs == node_views(nodes@),
            arena_ok(vs),
            n == vs.len(),
            k <= n,
            inside@.len() == k,
            depths@.len() == k,
            forall|q: int| 0 <= q < k ==> inside@[q] == descends(vs, q, root as int),
            forall|q: int| 0 <= q < k ==> #[trigger] depths@[q] == depth(vs, q),
            forall|q: int| 0 <= q < k ==> #[trigger] depths@[q] <= q,
        decreases n - k,
    {
        if k == 0 {
            inside.push(root == 0);
            depths.push(0);
        } else {
            assert(parent_before(vs[k as int], k as int));
            assert(vs[k as int] == nodes@[k as int]@);
            let p = match nodes[k].parent {
                Some(p) => p,
                None => 0,
            };
            assert(p < k);
            assert(vs[k as int].parent == Some(p));
            assert(depths@[p as int] <= p);
            let within = k == root || inside[p];
            inside.push(within);
            depths.push(depths[p] + 1);
        }
        k = k + 1;
    }
    (inside, depths)
}

/// The value of the first attribute with a local name.
fn attribute_value<'a>(node: &'a XmlNode, name: &str) -> (r: Option<&'a String>)
    ensures
        match r {
            Some(v) => first_value(node@.attributes, name@) == Some(v@),
            None => first_value(node@.attributes, name@) is None,
        },
{
    let ghost a = node@.attributes;
    let mut i: usize = 0;
    assert(a.subrange(0, a.len() as int) =~= a);
    while i < node.attributes.len()
        invariant
            a == node@.attributes,
            a.len() == node.attributes@.len(),
            i <= a.len(),
            first_value(a, name@) == first_value(a.subrange(i as int, a.len() as int), name@),
        decreases node.attributes.len() - i,
    {
        let ghost rest = a.subrange(i as int, a.len() as int);
        assert(rest[0] == a[i as int]);
        assert(rest.drop_first() =~= a.subrange(i + 1, a.len() as int));
        if same_text(node.attributes[i].name.as_str(), name) {
            return Some(&node.attributes[i].value);
        }
        i = i + 1;
    }
    None
}

fn is_suite_attribute(s: &str) -> (r: bool)
    ensures
        r == suite_attribute(s@),
{
    same_text(s, "name") || same_text(s, "id") || same_text(s, "package") || same_text(s, "timestamp")
        || same_text(s, "hostname") || same_text(s, "time") || same_text(s, "file") || same_text(s, "tests")
        || same_text(s, "failures") || same_text(s, "errors") || same_text(s, "skipped") || same_text(s, "disabled")
        || same_text(s, "assertions")
}

fn is_case_attribute(s: &str) -> (r: bool)
    ensures
        r == case_attribute(s@),
{
    same_text(s, "name") || same_text(s, "classname") || same_text(s, "time") || same_text(s, "file")
        || same_text(s, "line") || same_text(s, "assertions")
}

/// Whether an element carries an attribute outside the reviewed list.
fn foreign_attribute(node: &XmlNode, suite: bool) -> (r: bool)
    ensures
        r == has_foreign_attribute(node@.attributes, suite),
{
    let ghost a = node@.attributes;
    let mut i: usize = 0;
    while i < node.attributes.len()
        invariant
            a == node@.attributes,
            a.len() == node.attributes@.len(),
            i <= a.len(),
            forall|q: int| 0 <= q < i ==> (if suite { suite_attribute((#[trigger] a[q]).0) } else { case_attribute(a[q].0) }),
        decreases node.attributes.len() - i,
    {
        let name = node.attributes[i].name.as_str();
        let allowed = if suite { is_suite_attribute(name) } else { is_case_attribute(name) };
        if !allowed {
            assert(!(if suite { suite_attribute(a[i as int].0) } else { case_attribute(a[i as int].0) }));
            return true;
        }
        i = i + 1;
    }
    false
}

/// Whether the parent of node `k` is named `a` or `b`.
fn parent_named_exec(nodes: &Vec<XmlNode>, k: usize, a: &str, b: &str) -> (r: bool)
    requires
        k < nodes@.len(),
    ensures
        r == parent_named(node_views(nodes@), k as int, a@, b@),
{
    match nodes[k].parent {
        Some(p) => p < nodes.len() && (same_text(nodes[p].name.as_str(), a) || same_text(nodes[p].name.as_str(), b)),
        None => false,
    }
}

/// A prefix of a digit string never has a larger value.
pub proof fn lemma_digits_prefix(s: Seq<char>, i: int)
    requires
        0 <= i <= s.len(),
    ensures
        digits_value(s.subrange(0, i)) <= digits_value(s),
    decreases s.len(),
{
    if i < s.len() {
        assert(s.subrange(0, i) =~= s.drop_last().subrange(0, i));
        lemma_digits_prefix(s.drop_last(), i);
    } else {
        assert(s.subrange(0, i) =~= s);
    }
}

/// Whether `str::parse::<usize>` reads exactly `n` from a text.
fn count_text_is(s: &str, n: usize) -> (r: bool)
    ensures
        r == (unsigned_text(s@) == Some(n as nat)),
{
    let v = chars_of(s);
    let len = v.len();
    let start: usize = if len > 1 && v[0] == '+' { 1 } else { 0 };
    let mut acc: u128 = 0;
    let mut i: usize = start;
    assert(v@.subrange(start as int, start as int) =~= Seq::<char>::empty());
    while i < len
        invariant
            v@ == s@,
            len == v@.len(),
            start <= i <= len,
            start <= 1,
            start == 1 ==> len > 1 && v@[0] == '+',
            start == 0 ==> !(len > 1 && v@[0] == '+'),
            acc == digits_value(v@.subrange(start as int, i as int)),
            acc <= n,
            forall|q: int| start <= q < i ==> '0' <= #[trigger] v@[q] <= '9',
        decreases len - i,
    {
        let c = v[i];
        if !('0' <= c && c <= '9') {
            proof {
                if start == 0 {
                    assert(!all_digits(s@));
                } else {
                    assert(s@.drop_first()[i - 1] == c);
                    assert(!all_digits(s@));
                    assert(!all_digits(s@.drop_first()));
                }
            }
            return false;
        }
        let d = (c as u32 - 48) as u128;
        proof {
            assert(v@.subrange(start as int, i + 1).drop_last() =~= v@.subrange(start as int, i as int));
            assert(v@.subrange(start as int, i + 1).last() == c);
        }
        acc = acc * 10 + d;
        i = i + 1;
        if acc > n as u128 {
            proof {
                let rest = v@.subrange(start as int, len as int);
                assert(rest.subrange(0, i - start) =~= v@.subrange(start as int, i as int));
                lemma_digits_prefix(rest, i - start);
                if start == 1 {
                    assert(rest =~= s@.drop_first());
                    assert(!all_digits(s@));
                } else {
                    assert(rest =~= v@);
                }
            }
            return false;
        }
    }
    proof {
        if start == 1 {
            assert(v@.subrange(1, len as int) =~= s@.drop_first());
            assert(!all_digits(s@));
        } else {
            assert(v@.subrange(0, len as int) =~= s@);
        }
    }
    start < len && acc == n as u128
}

/// The cases at or below node `j` that have the given result child.
fn observed_count(nodes: &Vec<XmlNode>, j: usize, child: Option<&Vec<bool>>, Ghost(result): Ghost<Option<Seq<char>>>) -> (c: usize)
    requires
        arena_ok(node_views(nodes@)),
        child is None <==> result is None,
        child matches Some(cv) ==> cv@.len() == nodes@.len() && forall|q: int| 0 <= q < nodes@.len()
            ==> cv@[q] == has_child(node_views(nodes@), q, result->0),
    ensures
        c == observed(node_views(nodes@), j as int, result),
{
    let ghost vs = node_views(nodes@);
    let n = nodes.len();
    let mut c: usize = 0;
    let mut k: usize = 0;
    while k < n
        invariant
            vs == node_views(nodes@),
            arena_ok(vs),
            n == vs.len(),
            k <= n,
            child is None <==> result is None,
            child matches Some(cv) ==> cv@.len() == n && forall|q: int| 0 <= q < n ==> cv@[q] == has_child(vs, q, result->0),
            c == count_where(k as int, observed_pred(vs, j as int, result)),
            c <= k,
        decreases n - k,
    {
        assert(vs[k as int] == nodes@[k as int]@);
        let wanted = match child {
            None => true,
            Some(cv) => cv[k],
        };
        if wanted && nodes[k].element && same_text(nodes[k].name.as_str(), "testcase") && descends_exec(nodes, k, j) {
            c = c + 1;
        }
        k = k + 1;
    }
    c
}

/// Whether a declared summary attribute of suite `j` differs from what is observed.
fn attr_differs(nodes: &Vec<XmlNode>, j: usize, attr: &str, child: Option<&Vec<bool>>, Ghost(result): Ghost<Option<Seq<char>>>) -> (r: bool)
    requires
        arena_ok(node_views(nodes@)),
        j < nodes@.len(),
        child is None <==> result is None,
        child matches Some(cv) ==> cv@.len() == nodes@.len() && forall|q: int| 0 <= q < nodes@.len()
            ==> cv@[q] == has_child(node_views(nodes@), q, result->0),
    ensures
        r == count_attr_differs(node_views(nodes@), j as int, attr@, result),
{
    assert(node_views(nodes@)[j as int] == nodes@[j as int]@);
    match attribute_value(&nodes[j], attr) {
        Some(v) => {
            let seen = observed_count(nodes, j, child, Ghost(result));
            !count_text_is(v.as_str(), seen)
        },
        None => false,
    }
}

fn suite_name_exec(s: &str) -> (r: bool)
    ensures
        r == is_suite_name(s@),
{
    same_text(s, "testsuites") || same_text(s, "testsuite")
}

fn result_name_exec(s: &str) -> (r: bool)
    ensures
        r == is_result_name(s@),
{
    same_text(s, "failure") || same_text(s, "error") || same_text(s, "skipped")
}

fn retry_name_exec(s: &str) -> (r: bool)
    ensures
        r == is_retry_name(s@),
{
    same_text(s, "flakyFailure") || same_text(s, "flakyError") || same_text(s, "rerunFailure") || same_text(s, "rerunError")
}

fn known_name_exec(s: &str) -> (r: bool)
    ensures
        r == is_known_name(s@),
{
    suite_name_exec(s) || same_text(s, "testcase") || result_name_exec(s) || retry_name_exec(s)
        || same_text(s, "system-out") || same_text(s, "system-err") || same_text(s, "properties")
        || same_text(s, "property")
}

/// What one element shows by itself.
#[derive(Clone, Copy)]
struct NodeFlags {
    conflict: bool,
    case_position: bool,
    result_position: bool,
    case_identity: bool,
    counts: bool,
    disabled: bool,
    namespaced: bool,
    case_attributes: bool,
    suite_attributes: bool,
    retry: bool,
    unsupported: bool,
    nesting: bool,
}

spec fn node_flags_ok(f: NodeFlags, vs: Seq<XmlNodeView>, r: int, k: int) -> bool {
    &&& f.conflict == node_shows(vs, r, k, Finding::Conflict)
    &&& f.case_position == node_shows(vs, r, k, Finding::CasePosition)
    &&& f.result_position == node_shows(vs, r, k, Finding::ResultPosition)
    &&& f.case_identity == node_shows(vs, r, k, Finding::CaseIdentity)
    &&& f.counts == node_shows(vs, r, k, Finding::Counts)
    &&& f.disabled == node_shows(vs, r, k, Finding::Disabled)
    &&& f.namespaced == node_shows(vs, r, k, Finding::Namespaced)
    &&& f.case_attributes == node_shows(vs, r, k, Finding::CaseAttributes)
    &&& f.suite_attributes == node_shows(vs, r, k, Finding::SuiteAttributes)
    &&& f.retry == node_shows(vs, r, k, Finding::Retry)
    &&& f.unsupported == node_shows(vs, r, k, Finding::Unsupported)
    &&& f.nesting == node_shows(vs, r, k, Finding::Nesting)
}

/// The child tables of the result elements.
spec fn children_ok(vs: Seq<XmlNodeView>, errs: Seq<bool>, fails: Seq<bool>, skips: Seq<bool>) -> bool {
    &&& errs.len() == vs.len()
    &&& fails.len() == vs.len()
    &&& skips.len() == vs.len()
    &&& forall|q: int| 0 <= q < vs.len() ==> errs[q] == has_child(vs, q, "error"@)
    &&& forall|q: int| 0 <= q < vs.len() ==> fails[q] == has_child(vs, q, "failure"@)
    &&& forall|q: int| 0 <= q < vs.len() ==> skips[q] == has_child(vs, q, "skipped"@)
}

fn node_flags(nodes: &Vec<XmlNode>, r: usize, k: usize, errs: &Vec<bool>, fails: &Vec<bool>, skips: &Vec<bool>) -> (f: NodeFlags)
    requires
        arena_ok(node_views(nodes@)),
        k < nodes@.len(),
        children_ok(node_views(nodes@), errs@, fails@, skips@),
    ensures
        node_flags_ok(f, node_views(nodes@), r as int, k as int),
{
    let ghost vs = node_views(nodes@);
    proof {
        reveal(node_shows);
    }
    assert(vs[k as int] == nodes@[k as int]@);
    let node = &nodes[k];
    let name = node.name.as_str();
    let case = same_text(name, "testcase");
    let suite = suite_name_exec(name);
    let count = (if errs[k] { 1u8 } else { 0u8 }) + (if fails[k] { 1u8 } else { 0u8 }) + (if skips[k] { 1u8 } else { 0u8 });
    let blank_name = match attribute_value(node, "name") {
        Some(v) => blank(v.as_str()),
        None => {
            assert(is_blank(Seq::<char>::empty()));
            true
        },
    };
    let counts = suite && (attr_differs(nodes, k, "tests", None, Ghost(None))
        || attr_differs(nodes, k, "failures", Some(fails), Ghost(Some("failure"@)))
        || attr_differs(nodes, k, "errors", Some(errs), Ghost(Some("error"@)))
        || attr_differs(nodes, k, "skipped", Some(skips), Ghost(Some("skipped"@))));
    let disabled = suite && match attribute_value(node, "disabled") {
        Some(v) => !same_text(v.as_str(), "0"),
        None => false,
    };
    NodeFlags {
        conflict: case && count > 1,
        case_position: case && !parent_named_exec(nodes, k, "testsuite", "testsuite"),
        result_position: result_name_exec(name) && !parent_named_exec(nodes, k, "testcase", "testcase"),
        case_identity: case && blank_name,
        counts,
        disabled,
        namespaced: node.namespaced,
        case_attributes: case && foreign_attribute(node, false),
        suite_attributes: suite && foreign_attribute(node, true),
        retry: retry_name_exec(name),
        unsupported: !known_name_exec(name),
        nesting: suite && k != r && !parent_named_exec(nodes, k, "testsuites", "testsuite"),
    }
}

// ---------------------------------------------------------------------------
// The whole report

/// Whether the report shows a finding.
pub open spec fn finding_present(vs: Seq<XmlNodeView>, r: int, f: Finding) -> bool {
    let n = vs.len() as int;
    match f {
        Finding::Duplicate => duplicate_upto(vs, r, n),
        Finding::NoCases => count_where(n, case_pred(vs, r)) == 0,
        Finding::Skipped => count_where(n, skipped_pred(vs, r)) > 0,
        _ => shown_upto(vs, r, n, f),
    }
}

pub open spec fn any_finding(vs: Seq<XmlNodeView>, r: int) -> bool {
    exists|f: Finding| finding_present(vs, r, f)
}

pub open spec fn finding_message(f: Finding) -> Seq<char> {
    match f {
        Finding::Conflict => "A case contains conflicting result elements."@,
        Finding::CasePosition => "A case is outside a supported suite position."@,
        Finding::ResultPosition => "A result element is outside a supported case position."@,
        Finding::CaseIdentity => "A test case has no usable identity."@,
        Finding::Counts => "Declared summary counts differ from observed case elements."@,
        Finding::Disabled => "Disabled cases require review."@,
        Finding::Duplicate => "Duplicate case identities may conceal repeated attempts."@,
        Finding::Namespaced => "Namespaced elements are not supported by this inspector."@,
        Finding::NoCases => "No test cases were observed; summary counts alone are insufficient."@,
        Finding::CaseAttributes => "Producer-specific case attributes need review."@,
        Finding::SuiteAttributes => "Producer-specific suite attributes need review."@,
        Finding::Retry => "Retry/flaky evidence needs review; a final success cannot erase it."@,
        Finding::Skipped => "Skipped cases require an applicability or quarantine review."@,
        Finding::Unsupported => "Unsupported elements prevent a complete interpretation."@,
        Finding::Nesting => "Unsupported suite nesting was observed."@,
    }
}

/// The findings in the order of their messages.
pub open spec fn finding_order() -> Seq<Finding> {
    seq![Finding::Conflict, Finding::CasePosition, Finding::ResultPosition, Finding::CaseIdentity, Finding::Counts,
        Finding::Disabled, Finding::Duplicate, Finding::Namespaced, Finding::NoCases, Finding::CaseAttributes,
        Finding::SuiteAttributes, Finding::Retry, Finding::Skipped, Finding::Unsupported, Finding::Nesting]
}

/// The messages of the present findings among `fs`, in order.
pub open spec fn listed(vs: Seq<XmlNodeView>, r: int, fs: Seq<Finding>) -> Seq<Seq<char>>
    decreases fs.len(),
{
    if fs.len() == 0 {
        Seq::empty()
    } else {
        let rest = listed(vs, r, fs.drop_last());
        if finding_present(vs, r, fs.last()) { rest.push(finding_message(fs.last())) } else { rest }
    }
}

pub open spec fn closing_note() -> Seq<char> {
    "Report inspection only: execution, revision, freshness and complete retry history remain unverified. No gate or evidence ledger was updated."@
}

pub open spec fn report_diagnostics(vs: Seq<XmlNodeView>, r: int) -> Seq<Seq<char>> {
    listed(vs, r, finding_order()).push(closing_note())
}

/// Failed when a case failed or errored; passed only when nothing needs review.
pub open spec fn report_outcome(vs: Seq<XmlNodeView>, r: int) -> Outcome {
    let n = vs.len() as int;
    if count_where(n, failure_pred(vs, r)) > 0 || count_where(n, error_pred(vs, r)) > 0 {
        Outcome::Failed
    } else if any_finding(vs, r) {
        Outcome::Unverified
    } else {
        Outcome::Passed
    }
}

/// Read-only observations about one report, never execution or gate qualification.
#[derive(Debug)]
pub struct TestReportInspection {
    /// Independent inspection output schema.
    pub schema: u32,
    /// SHA-256 of the exact input bytes; not proof of origin or freshness.
    pub input_sha256: String,
    /// Outcome of the supported report observations only.
    pub outcome: Outcome,
    /// Actual case elements, not a trusted producer summary.
    pub cases: usize,
    /// Cases containing a failure, excluding cases also containing an error.
    pub failures: usize,
    /// Cases containing an error (a reported test error, not a parser failure).
    pub errors: usize,
    /// Cases containing a skip, excluding failed/error cases.
    pub skipped: usize,
    /// Recognized retry/flaky elements; not a complete attempt count.
    pub retry_signals: usize,
    /// Revision, execution identity and freshness remain unverified.
    pub qualification: Outcome,
    /// Fixed diagnostics without copied report text, names or captured output.
    pub diagnostics: Vec<String>,
}

/// The inspection of the report rooted at element `r`, with a digest.
pub open spec fn report_matches(rep: TestReportInspection, vs: Seq<XmlNodeView>, r: int, sha: Seq<char>) -> bool {
    let n = vs.len() as int;
    &&& rep.schema == 1
    &&& rep.input_sha256@ == sha
    &&& rep.outcome == report_outcome(vs, r)
    &&& rep.cases == count_where(n, case_pred(vs, r))
    &&& rep.failures == count_where(n, failure_pred(vs, r))
    &&& rep.errors == count_where(n, error_pred(vs, r))
    &&& rep.skipped == count_where(n, skipped_pred(vs, r))
    &&& rep.retry_signals == count_where(n, retry_pred(vs, r))
    &&& rep.qualification == Outcome::Unverified
    &&& text_views(rep.diagnostics@) == report_diagnostics(vs, r)
}

/// An element of the report nested deeper than the limit.
pub open spec fn too_deep(vs: Seq<XmlNodeView>, r: int) -> bool {
    exists|k: int| in_report(vs, r, k) && depth(vs, k) > MAX_NESTING
}

/// Why a node list cannot be inspected, if it cannot.
pub open spec fn nodes_error(vs: Seq<XmlNodeView>) -> Option<JunitError> {
    if !arena_ok(vs) {
        Some(JunitError::InvalidXml)
    } else {
        match root_of(vs) {
            None => Some(JunitError::InvalidXml),
            Some(r) => if vs[r].namespaced || !is_suite_name(vs[r].name) {
                Some(JunitError::UnsupportedRoot)
            } else if too_deep(vs, r) {
                Some(JunitError::TooDeep)
            } else {
                None
            },
        }
    }
}

#[derive(Clone, Copy)]
struct Tally {
    conflict: bool,
    case_position: bool,
    result_position: bool,
    case_identity: bool,
    counts: bool,
    disabled: bool,
    namespaced: bool,
    case_attributes: bool,
    suite_attributes: bool,
    retry: bool,
    unsupported: bool,
    nesting: bool,
    duplicate: bool,
    cases: usize,
    failures: usize,
    errors: usize,
    skipped: usize,
    retries: usize,
}

spec fn tally_ok(t: Tally, vs: Seq<XmlNodeView>, r: int, n: int) -> bool {
    flags_ok(t, vs, r, n) && counts_ok(t, vs, r, n)
}

#[verifier::opaque]
spec fn flags_ok(t: Tally, vs: Seq<XmlNodeView>, r: int, n: int) -> bool {
    &&& t.conflict == shown_upto(vs, r, n, Finding::Conflict)
    &&& t.case_position == shown_upto(vs, r, n, Finding::CasePosition)
    &&& t.result_position == shown_upto(vs, r, n, Finding::ResultPosition)
    &&& t.case_identity == shown_upto(vs, r, n, Finding::CaseIdentity)
    &&& t.counts == shown_upto(vs, r, n, Finding::Counts)
    &&& t.disabled == shown_upto(vs, r, n, Finding::Disabled)
    &&& t.namespaced == shown_upto(vs, r, n, Finding::Namespaced)
    &&& t.case_attributes == shown_upto(vs, r, n, Finding::CaseAttributes)
    &&& t.suite_attributes == shown_upto(vs, r, n, Finding::SuiteAttributes)
    &&& t.retry == shown_upto(vs, r, n, Finding::Retry)
    &&& t.unsupported == shown_upto(vs, r, n, Finding::Unsupported)
    &&& t.nesting == shown_upto(vs, r, n, Finding::Nesting)
    &&& t.duplicate == duplicate_upto(vs, r, n)
}

#[verifier::opaque]
spec fn counts_ok(t: Tally, vs: Seq<XmlNodeView>, r: int, n: int) -> bool {
    &&& t.cases == count_where(n, case_pred(vs, r))
    &&& t.failures == count_where(n, failure_pred(vs, r))
    &&& t.errors == count_where(n, error_pred(vs, r))
    &&& t.skipped == count_where(n, skipped_pred(vs, r))
    &&& t.retries == count_where(n, retry_pred(vs, r))
}

proof fn lemma_shown_step(vs: Seq<XmlNodeView>, r: int, k: int, f: Finding)
    requires
        0 <= k,
    ensures
        shown_upto(vs, r, k + 1, f) == (shown_upto(vs, r, k, f) || (in_report(vs, r, k) && node_shows(vs, r, k, f))),
{
    if shown_upto(vs, r, k + 1, f) {
        let w = choose|w: int| 0 <= w < k + 1 && in_report(vs, r, w) && #[trigger] node_shows(vs, r, w, f);
        if w < k {
            assert(shown_upto(vs, r, k, f));
        }
    }
    if in_report(vs, r, k) && node_shows(vs, r, k, f) {
        assert(shown_upto(vs, r, k + 1, f));
    }
}

proof fn lemma_duplicate_step(vs: Seq<XmlNodeView>, r: int, k: int)
    requires
        0 <= k,
    ensures
        duplicate_upto(vs, r, k + 1) == (duplicate_upto(vs, r, k) || (case_in_report(vs, r, k)
            && exists|a: int| 0 <= a < k && #[trigger] case_in_report(vs, r, a) && identity(vs, a) == identity(vs, k))),
{
    if duplicate_upto(vs, r, k + 1) {
        let (a, b) = choose|a: int, b: int| 0 <= a < b < k + 1 && #[trigger] case_in_report(vs, r, a)
            && #[trigger] case_in_report(vs, r, b) && identity(vs, a) == identity(vs, b);
        if b < k {
            assert(duplicate_upto(vs, r, k));
        } else {
            assert(case_in_report(vs, r, a) && identity(vs, a) == identity(vs, k));
        }
    }
    if case_in_report(vs, r, k) && exists|a: int| 0 <= a < k && #[trigger] case_in_report(vs, r, a) && identity(vs, a) == identity(vs, k) {
        let a = choose|a: int| 0 <= a < k && #[trigger] case_in_report(vs, r, a) && identity(vs, a) == identity(vs, k);
        assert(case_in_report(vs, r, a) && case_in_report(vs, r, k));
        assert(duplicate_upto(vs, r, k + 1));
    }
    if duplicate_upto(vs, r, k) {
        let (a, b) = choose|a: int, b: int| 0 <= a < b < k && #[trigger] case_in_report(vs, r, a)
            && #[trigger] case_in_report(vs, r, b) && identity(vs, a) == identity(vs, b);
        assert(duplicate_upto(vs, r, k + 1));
    }
}

/// One more element of the report, its findings added to the tally.
fn step_flags(
    t: Tally,
    f: NodeFlags,
    inside: bool,
    is_case: bool,
    dup_here: bool,
    Ghost(vs): Ghost<Seq<XmlNodeView>>,
    Ghost(r): Ghost<int>,
    Ghost(k): Ghost<int>,
) -> (u: Tally)
    requires
        0 <= k < vs.len(),
        flags_ok(t, vs, r, k),
        counts_ok(t, vs, r, k),
        node_flags_ok(f, vs, r, k),
        inside == in_report(vs, r, k),
        is_case == case_in_report(vs, r, k),
        is_case ==> dup_here == (exists|a: int| 0 <= a < k && #[trigger] case_in_report(vs, r, a) && identity(vs, a) == identity(vs, k)),
    ensures
        flags_ok(u, vs, r, k + 1),
        counts_ok(u, vs, r, k),
{
    proof {
        reveal(flags_ok);
        reveal(counts_ok);
        lemma_shown_step(vs, r, k, Finding::Conflict);
        lemma_shown_step(vs, r, k, Finding::CasePosition);
        lemma_shown_step(vs, r, k, Finding::ResultPosition);
        lemma_shown_step(vs, r, k, Finding::CaseIdentity);
        lemma_shown_step(vs, r, k, Finding::Counts);
        lemma_shown_step(vs, r, k, Finding::Disabled);
        lemma_shown_step(vs, r, k, Finding::Namespaced);
        lemma_shown_step(vs, r, k, Finding::CaseAttributes);
        lemma_shown_step(vs, r, k, Finding::SuiteAttributes);
        lemma_shown_step(vs, r, k, Finding::Retry);
        lemma_shown_step(vs, r, k, Finding::Unsupported);
        lemma_shown_step(vs, r, k, Finding::Nesting);
        lemma_duplicate_step(vs, r, k);
    }
    Tally {
        conflict: t.conflict || (inside && f.conflict),
        case_position: t.case_position || (inside && f.case_position),
        result_position: t.result_position || (inside && f.result_position),
        case_identity: t.case_identity || (inside && f.case_identity),
        counts: t.counts || (inside && f.counts),
        disabled: t.disabled || (inside && f.disabled),
        namespaced: t.namespaced || (inside && f.namespaced),
        case_attributes: t.case_attributes || (inside && f.case_attributes),
        suite_attributes: t.suite_attributes || (inside && f.suite_attributes),
        retry: t.retry || (inside && f.retry),
        unsupported: t.unsupported || (inside && f.unsupported),
        nesting: t.nesting || (inside && f.nesting),
        duplicate: t.duplicate || (is_case && dup_here),
        ..t
    }
}

/// One more element of the report, counted into the tally.
fn step_counts(
    t: Tally,
    inside: bool,
    is_case: bool,
    err: bool,
    fail: bool,
    skip: bool,
    retry: bool,
    Ghost(vs): Ghost<Seq<XmlNodeView>>,
    Ghost(r): Ghost<int>,
    Ghost(k): Ghost<int>,
) -> (u: Tally)
    requires
        0 <= k < vs.len() <= usize::MAX,
        counts_ok(t, vs, r, k),
        flags_ok(t, vs, r, k + 1),
        inside == in_report(vs, r, k),
        is_case == case_in_report(vs, r, k),
        err == has_child(vs, k, "error"@),
        fail == has_child(vs, k, "failure"@),
        skip == has_child(vs, k, "skipped"@),
        retry == is_retry_name(vs[k].name),
    ensures
        counts_ok(u, vs, r, k + 1),
        flags_ok(u, vs, r, k + 1),
{
    proof {
        reveal(flags_ok);
        reveal(counts_ok);
        lemma_count_le(k, case_pred(vs, r));
        lemma_count_le(k, failure_pred(vs, r));
        lemma_count_le(k, error_pred(vs, r));
        lemma_count_le(k, skipped_pred(vs, r));
        lemma_count_le(k, retry_pred(vs, r));
    }
    Tally {
        cases: if is_case { t.cases + 1 } else { t.cases },
        failures: if is_case && !err && fail { t.failures + 1 } else { t.failures },
        errors: if is_case && err { t.errors + 1 } else { t.errors },
        skipped: if is_case && !err && !fail && skip { t.skipped + 1 } else { t.skipped },
        retries: if inside && retry { t.retries + 1 } else { t.retries },
        ..t
    }
}

pub open spec fn id_view(t: (String, String, String)) -> (Seq<char>, Seq<char>, Seq<char>) {
    (t.0@, t.1@, t.2@)
}

fn value_or_empty_exec(node: &XmlNode, name: &str) -> (r: String)
    ensures
        r@ == value_or_empty(node@.attributes, name@),
{
    match attribute_value(node, name) {
        Some(v) => v.clone(),
        None => String::new(),
    }
}

fn identity_exec(nodes: &Vec<XmlNode>, k: usize) -> (res: (String, String, String))
    requires
        k < nodes@.len(),
    ensures
        id_view(res) == identity(node_views(nodes@), k as int),
{
    let ghost vs = node_views(nodes@);
    proof {
        reveal(identity);
    }
    assert(vs[k as int] == nodes@[k as int]@);
    let suite = match nodes[k].parent {
        Some(p) => if p < nodes.len() {
            assert(vs[p as int] == nodes@[p as int]@);
            value_or_empty_exec(&nodes[p], "name")
        } else {
            String::new()
        },
        None => String::new(),
    };
    (suite, value_or_empty_exec(&nodes[k], "classname"), value_or_empty_exec(&nodes[k], "name"))
}

fn seen_identity(ids: &Vec<(String, String, String)>, id: &(String, String, String)) -> (r: bool)
    ensures
        r == exists|q: int| 0 <= q < ids@.len() && id_view(#[trigger] ids@[q]) == id_view(*id),
{
    let mut q: usize = 0;
    while q < ids.len()
        invariant
            q <= ids@.len(),
            forall|p: int| 0 <= p < q ==> id_view(#[trigger] ids@[p]) != id_view(*id),
        decreases ids.len() - q,
    {
        if same_text(ids[q].0.as_str(), id.0.as_str()) && same_text(ids[q].1.as_str(), id.1.as_str())
            && same_text(ids[q].2.as_str(), id.2.as_str()) {
            return true;
        }
        q = q + 1;
    }
    false
}

fn finding_list() -> (r: Vec<Finding>)
    ensures
        r@ == finding_order(),
{
    let r = vec![Finding::Conflict, Finding::CasePosition, Finding::ResultPosition, Finding::CaseIdentity, Finding::Counts,
        Finding::Disabled, Finding::Duplicate, Finding::Namespaced, Finding::NoCases, Finding::CaseAttributes,
        Finding::SuiteAttributes, Finding::Retry, Finding::Skipped, Finding::Unsupported, Finding::Nesting];
    assert(r@ =~= finding_order());
    r
}

fn finding_text(f: Finding) -> (r: &'static str)
    ensures
        r@ == finding_message(f),
{
    match f {
        Finding::Conflict => "A case contains conflicting result elements.",
        Finding::CasePosition => "A case is outside a supported suite position.",
        Finding::ResultPosition => "A result element is outside a supported case position.",
        Finding::CaseIdentity => "A test case has no usable identity.",
        Finding::Counts => "Declared summary counts differ from observed case elements.",
        Finding::Disabled => "Disabled cases require review.",
        Finding::Duplicate => "Duplicate case identities may conceal repeated attempts.",
        Finding::Namespaced => "Namespaced elements are not supported by this inspector.",
        Finding::NoCases => "No test cases were observed; summary counts alone are insufficient.",
        Finding::CaseAttributes => "Producer-specific case attributes need review.",
        Finding::SuiteAttributes => "Producer-specific suite attributes need review.",
        Finding::Retry => "Retry/flaky evidence needs review; a final success cannot erase it.",
        Finding::Skipped => "Skipped cases require an applicability or quarantine review.",
        Finding::Unsupported => "Unsupported elements prevent a complete interpretation.",
        Finding::Nesting => "Unsupported suite nesting was observed.",
    }
}

fn present(t: &Tally, f: Finding, Ghost(vs): Ghost<Seq<XmlNodeView>>, Ghost(r): Ghost<int>) -> (b: bool)
    requires
        tally_ok(*t, vs, r, vs.len() as int),
    ensures
        b == finding_present(vs, r, f),
{
    proof {
        reveal(flags_ok);
        reveal(counts_ok);
    }
    match f {
        Finding::Conflict => t.conflict,
        Finding::CasePosition => t.case_position,
        Finding::ResultPosition => t.result_position,
        Finding::CaseIdentity => t.case_identity,
        Finding::Counts => t.counts,
        Finding::Disabled => t.disabled,
        Finding::Duplicate => t.duplicate,
        Finding::Namespaced => t.namespaced,
        Finding::NoCases => t.cases == 0,
        Finding::CaseAttributes => t.case_attributes,
        Finding::SuiteAttributes => t.suite_attributes,
        Finding::Retry => t.retry,
        Finding::Skipped => t.skipped > 0,
        Finding::Unsupported => t.unsupported,
        Finding::Nesting => t.nesting,
    }
}

/// The messages of the present findings, then the closing note; and
/// whether any finding is present.
fn diagnostics_of(t: &Tally, Ghost(vs): Ghost<Seq<XmlNodeView>>, Ghost(r): Ghost<int>) -> (res: (Vec<String>, bool))
    requires
        tally_ok(*t, vs, r, vs.len() as int),
    ensures
        text_views(res.0@) == report_diagnostics(vs, r),
        res.1 == any_finding(vs, r),
{
    let order = finding_list();
    let mut d: Vec<String> = Vec::new();
    let mut any = false;
    let mut i: usize = 0;
    while i < order.len()
        invariant
            order@ == finding_order(),
            tally_ok(*t, vs, r, vs.len() as int),
            i <= order@.len(),
            text_views(d@) == listed(vs, r, order@.subrange(0, i as int)),
            any == exists|q: int| 0 <= q < i && finding_present(vs, r, #[trigger] order@[q]),
        decreases order.len() - i,
    {
        let f = order[i];
        assert(order@.subrange(0, i + 1).drop_last() =~= order@.subrange(0, i as int));
        assert(order@.subrange(0, i + 1).last() == f);
        let here = present(t, f, Ghost(vs), Ghost(r));
        if here {
            d.push(owned(finding_text(f)));
            assert(text_views(d@) =~= listed(vs, r, order@.subrange(0, i as int)).push(finding_message(f)));
        }
        any = any || here;
        i = i + 1;
    }
    assert(order@.subrange(0, order@.len() as int) =~= order@);
    d.push(owned("Report inspection only: execution, revision, freshness and complete retry history remain unverified. No gate or evidence ledger was updated."));
    proof {
        assert(text_views(d@) =~= listed(vs, r, finding_order()).push(closing_note()));
        if any {
            let q = choose|q: int| 0 <= q < order@.len() && finding_present(vs, r, #[trigger] order@[q]);
            assert(finding_present(vs, r, order@[q]));
        } else {
            assert forall|f: Finding| !finding_present(vs, r, f) by {
                match f {
                    Finding::Conflict => assert(order@[0] == f),
                    Finding::CasePosition => assert(order@[1] == f),
                    Finding::ResultPosition => assert(order@[2] == f),
                    Finding::CaseIdentity => assert(order@[3] == f),
                    Finding::Counts => assert(order@[4] == f),
                    Finding::Disabled => assert(order@[5] == f),
                    Finding::Duplicate => assert(order@[6] == f),
                    Finding::Namespaced => assert(order@[7] == f),
                    Finding::NoCases => assert(order@[8] == f),
                    Finding::CaseAttributes => assert(order@[9] == f),
                    Finding::SuiteAttributes => assert(order@[10] == f),
                    Finding::Retry => assert(order@[11] == f),
                    Finding::Skipped => assert(order@[12] == f),
                    Finding::Unsupported => assert(order@[13] == f),
                    Finding::Nesting => assert(order@[14] == f),
                }
            }
        }
    }
    (d, any)
}

/// Every identity kept so far is that of the case before position `k` at
/// the same place in `pos`.
spec fn ids_sound(ids: Seq<(String, String, String)>, pos: Seq<int>, vs: Seq<XmlNodeView>, r: int, k: int) -> bool {
    &&& ids.len() == pos.len()
    &&& forall|q: int| 0 <= q < ids.len() ==> 0 <= #[trigger] pos[q] < k && case_in_report(vs, r, pos[q])
        && identity(vs, pos[q]) == id_view(ids[q])
}

/// The identity of every case before position `k` is kept.
spec fn ids_complete(ids: Seq<(String, String, String)>, vs: Seq<XmlNodeView>, r: int, k: int) -> bool {
    forall|a: int| 0 <= a < k && #[trigger] case_in_report(vs, r, a) ==> exists|q: int| 0 <= q < ids.len()
        && id_view(#[trigger] ids[q]) == identity(vs, a)
}

proof fn lemma_ids_skip(ids: Seq<(String, String, String)>, pos: Seq<int>, vs: Seq<XmlNodeView>, r: int, k: int)
    requires
        ids_sound(ids, pos, vs, r, k),
        ids_complete(ids, vs, r, k),
        !case_in_report(vs, r, k),
    ensures
        ids_sound(ids, pos, vs, r, k + 1),
        ids_complete(ids, vs, r, k + 1),
{
    assert forall|a: int| 0 <= a < k + 1 && #[trigger] case_in_report(vs, r, a) implies exists|q: int| 0 <= q
        < ids.len() && id_view(#[trigger] ids[q]) == identity(vs, a) by {
        assert(a < k);
    }
}

/// Records the identity of case `k` and tells whether an earlier case had it.
fn note_case(ids: &mut Vec<(String, String, String)>, nodes: &Vec<XmlNode>, k: usize, Ghost(r): Ghost<int>, Ghost(pos): Ghost<Seq<int>>) -> (dup: bool)
    requires
        k < nodes@.len(),
        case_in_report(node_views(nodes@), r, k as int),
        ids_sound(old(ids)@, pos, node_views(nodes@), r, k as int),
        ids_complete(old(ids)@, node_views(nodes@), r, k as int),
    ensures
        ids_sound(final(ids)@, pos.push(k as int), node_views(nodes@), r, k + 1),
        ids_complete(final(ids)@, node_views(nodes@), r, k + 1),
        dup == exists|a: int| 0 <= a < k && #[trigger] case_in_report(node_views(nodes@), r, a)
            && identity(node_views(nodes@), a) == identity(node_views(nodes@), k as int),
{
    let ghost vs = node_views(nodes@);
    let idk = identity_exec(nodes, k);
    let dup_here = seen_identity(ids, &idk);
    proof {
        if dup_here {
            let q = choose|q: int| 0 <= q < ids@.len() && id_view(#[trigger] ids@[q]) == id_view(idk);
            let a = pos[q];
            assert(0 <= a < k && case_in_report(vs, r, a) && identity(vs, a) == identity(vs, k as int));
        }
        if exists|a: int| 0 <= a < k && #[trigger] case_in_report(vs, r, a) && identity(vs, a) == identity(vs, k as int) {
            let a = choose|a: int| 0 <= a < k && #[trigger] case_in_report(vs, r, a) && identity(vs, a) == identity(vs, k as int);
            assert(case_in_report(vs, r, a));
        }
    }
    let ghost before = ids@;
    ids.push(idk);
    proof {
        let p2 = pos.push(k as int);
        assert forall|q: int| 0 <= q < ids@.len() implies 0 <= #[trigger] p2[q] < k + 1 && case_in_report(vs, r, p2[q])
            && identity(vs, p2[q]) == id_view(ids@[q]) by {
            if q < before.len() {
                assert(ids@[q] == before[q]);
                assert(p2[q] == pos[q]);
            } else {
                assert(ids@[q] == idk);
            }
        }
        assert forall|a: int| 0 <= a < k + 1 && #[trigger] case_in_report(vs, r, a) implies exists|q: int| 0 <= q
            < ids@.len() && id_view(#[trigger] ids@[q]) == identity(vs, a) by {
            if a < k {
                let q = choose|q: int| 0 <= q < before.len() && id_view(#[trigger] before[q]) == identity(vs, a);
                assert(ids@[q] == before[q]);
            } else {
                assert(ids@[before.len() as int] == idk);
            }
        }
    }
    dup_here
}

/// Element `k` of the node list, counted into the tally.
fn visit(
    t: Tally,
    ids: &mut Vec<(String, String, String)>,
    nodes: &Vec<XmlNode>,
    root: usize,
    k: usize,
    inside: &Vec<bool>,
    errs: &Vec<bool>,
    fails: &Vec<bool>,
    skips: &Vec<bool>,
    Ghost(pos): Ghost<Seq<int>>,
) -> (u: Tally)
    requires
        arena_ok(node_views(nodes@)),
        k < nodes@.len(),
        inside@.len() == nodes@.len(),
        forall|q: int| 0 <= q < nodes@.len() ==> inside@[q] == descends(node_views(nodes@), q, root as int),
        children_ok(node_views(nodes@), errs@, fails@, skips@),
        tally_ok(t, node_views(nodes@), root as int, k as int),
        ids_sound(old(ids)@, pos, node_views(nodes@), root as int, k as int),
        ids_complete(old(ids)@, node_views(nodes@), root as int, k as int),
    ensures
        tally_ok(u, node_views(nodes@), root as int, k + 1),
        ids_sound(final(ids)@, if case_in_report(node_views(nodes@), root as int, k as int) { pos.push(k as int) } else { pos },
            node_views(nodes@), root as int, k + 1),
        ids_complete(final(ids)@, node_views(nodes@), root as int, k + 1),
{
    let ghost vs = node_views(nodes@);
    let ghost r = root as int;
    let n = nodes.len();
    assert(vs.len() == n);
    assert(vs[k as int] == nodes@[k as int]@);
    let name = nodes[k].name.as_str();
    let inside_k = nodes[k].element && inside[k];
    let is_case = inside_k && same_text(name, "testcase");
    assert(is_case == case_in_report(vs, r, k as int)) by {
        reveal(case_in_report);
    }
    let f = node_flags(nodes, root, k, errs, fails, skips);
    let mid = if is_case {
        let dup_here = note_case(ids, nodes, k, Ghost(r), Ghost(pos));
        step_flags(t, f, inside_k, is_case, dup_here, Ghost(vs), Ghost(r), Ghost(k as int))
    } else {
        proof { lemma_ids_skip(ids@, pos, vs, r, k as int); }
        step_flags(t, f, inside_k, is_case, false, Ghost(vs), Ghost(r), Ghost(k as int))
    };
    step_counts(mid, inside_k, is_case, errs[k], fails[k], skips[k], retry_name_exec(name), Ghost(vs), Ghost(r), Ghost(k as int))
}

/// Inspects a parsed report given as its node list, with the digest of its bytes.
#[verifier::rlimit(40)]
pub fn inspect_nodes(nodes: &Vec<XmlNode>, input_sha256: String) -> (res: Result<TestReportInspection, JunitError>)
    ensures
        match nodes_error(node_views(nodes@)) {
            Some(e) => res == Err::<TestReportInspection, JunitError>(e),
            None => res matches Ok(rep) && report_matches(rep, node_views(nodes@), root_of(node_views(nodes@))->0, input_sha256@),
        },
{
    let ghost vs = node_views(nodes@);
    if !arena_valid(nodes) {
        return Err(JunitError::InvalidXml);
    }
    let root = match root_index(nodes) {
        Some(r) => r,
        None => { return Err(JunitError::InvalidXml); },
    };
    let ghost r = root as int;
    assert(vs[r] == nodes@[r]@);
    if nodes[root].namespaced || !suite_name_exec(nodes[root].name.as_str()) {
        return Err(JunitError::UnsupportedRoot);
    }
    let n = nodes.len();
    let (inside, depths) = tree_facts(nodes, root);
    let mut k: usize = 0;
    while k < n
        invariant
            vs == node_views(nodes@),
            arena_ok(vs),
            r == root as int,
            root_of(vs) == Some(r),
            !(vs[r].namespaced || !is_suite_name(vs[r].name)),
            n == vs.len(),
            inside@.len() == n,
            depths@.len() == n,
            forall|q: int| 0 <= q < n ==> inside@[q] == descends(vs, q, r),
            forall|q: int| 0 <= q < n ==> depths@[q] == depth(vs, q),
            k <= n,
            forall|q: int| 0 <= q < k ==> !(in_report(vs, r, q) && depth(vs, q) > MAX_NESTING),
        decreases n - k,
    {
        assert(vs[k as int] == nodes@[k as int]@);
        if nodes[k].element && inside[k] && depths[k] > MAX_NESTING {
            assert(in_report(vs, r, k as int) && depth(vs, k as int) > MAX_NESTING);
            return Err(JunitError::TooDeep);
        }
        k = k + 1;
    }
    let errs = child_flags(nodes, "error");
    let fails = child_flags(nodes, "failure");
    let skips = child_flags(nodes, "skipped");
    let mut t = Tally {
        conflict: false,
        case_position: false,
        result_position: false,
        case_identity: false,
        counts: false,
        disabled: false,
        namespaced: false,
        case_attributes: false,
        suite_attributes: false,
        retry: false,
        unsupported: false,
        nesting: false,
        duplicate: false,
        cases: 0,
        failures: 0,
        errors: 0,
        skipped: 0,
        retries: 0,
    };
    let mut ids: Vec<(String, String, String)> = Vec::new();
    let ghost mut pos: Seq<int> = Seq::empty();
    assert(tally_ok(t, vs, r, 0)) by {
        reveal(flags_ok);
        reveal(counts_ok);
    }
    k = 0;
    while k < n
        invariant
            vs == node_views(nodes@),
            arena_ok(vs),
            r == root as int,
            n == vs.len(),
            inside@.len() == n,
            forall|q: int| 0 <= q < n ==> inside@[q] == descends(vs, q, r),
            children_ok(vs, errs@, fails@, skips@),
            k <= n,
            tally_ok(t, vs, r, k as int),
            ids_sound(ids@, pos, vs, r, k as int),
            ids_complete(ids@, vs, r, k as int),
        decreases n - k,
    {
        t = visit(t, &mut ids, nodes, root, k, &inside, &errs, &fails, &skips, Ghost(pos));
        proof {
            if case_in_report(vs, r, k as int) {
                pos = pos.push(k as int);
            }
        }
        k = k + 1;
    }
    let (diagnostics, any) = diagnostics_of(&t, Ghost(vs), Ghost(r));
    proof {
        reveal(counts_ok);
    }
    let outcome = if t.failures > 0 || t.errors > 0 {
        Outcome::Failed
    } else if any {
        Outcome::Unverified
    } else {
        Outcome::Passed
    };
    Ok(TestReportInspection {
        schema: 1,
        input_sha256,
        outcome,
        cases: t.cases,
        failures: t.failures,
        errors: t.errors,
        skipped: t.skipped,
        retry_signals: t.retries,
        qualification: Outcome::Unverified,
        diagnostics,
    })
}

/// Inspects bounded UTF-8 JUnit XML without executing anything and without
/// resolving entities; the result never qualifies a gate.
pub fn inspect_junit(bytes: &[u8]) -> (res: Result<TestReportInspection, JunitError>)
    ensures
        bytes@.len() > MAX_REPORT_BYTES ==> res == Err::<TestReportInspection, JunitError>(JunitError::Oversized),
        bytes@.len() <= MAX_REPORT_BYTES && !vstd::utf8::valid_utf8(bytes@)
            ==> res == Err::<TestReportInspection, JunitError>(JunitError::NotUtf8),
        bytes@.len() <= MAX_REPORT_BYTES && vstd::utf8::valid_utf8(bytes@) ==> match xml_nodes(vstd::utf8::decode_utf8(bytes@), false, MAX_XML_NODES) {
            None => res == Err::<TestReportInspection, JunitError>(JunitError::InvalidXml),
            Some(vs) => match nodes_error(vs) {
                Some(e) => res == Err::<TestReportInspection, JunitError>(e),
                None => res matches Ok(rep) && report_matches(rep, vs, root_of(vs)->0, sha256_hex(bytes@)),
            },
        },
        res matches Ok(rep) ==> lower_hex_digest(rep.input_sha256@),
{
    if bytes.len() > MAX_REPORT_BYTES {
        return Err(JunitError::Oversized);
    }
    let text = match utf8_text(bytes) {
        Some(t) => t,
        None => { return Err(JunitError::NotUtf8); },
    };
    let nodes = match parse_xml(text.as_str(), false, MAX_XML_NODES) {
        Some(v) => v,
        None => { return Err(JunitError::InvalidXml); },
    };
    let digest = sha256_hex_of(bytes);
    let ghost d = digest@;
    let res = inspect_nodes(&nodes, digest);
    proof {
        if res is Ok {
            assert(res->Ok_0.input_sha256@ == d);
        }
    }
    res
}

// ---------------------------------------------------------------------------
// Laws

/// An incomplete or ambiguous report never passes: retry or flaky evidence,
/// a skipped case, a report without cases, duplicate identities or any
/// other finding keeps it from passing, whatever else it holds; a failed or
/// errored case fails it.
pub proof fn lemma_findings_keep_reports_from_passing(vs: Seq<XmlNodeView>, r: int, f: Finding)
    requires
        finding_present(vs, r, f),
    ensures
        report_outcome(vs, r) != Outcome::Passed,
{
}

/// A failed or errored case fails the report, whatever else it holds.
pub proof fn lemma_failed_cases_fail_reports(vs: Seq<XmlNodeView>, r: int)
    requires
        count_where(vs.len() as int, failure_pred(vs, r)) > 0 || count_where(vs.len() as int, error_pred(vs, r)) > 0,
    ensures
        report_outcome(vs, r) == Outcome::Failed,
{
}

/// Retry or flaky evidence needs review: a final success cannot erase it, so
/// a report holding such an element never passes.
pub proof fn lemma_retry_evidence_is_never_erased(vs: Seq<XmlNodeView>, r: int, k: int)
    requires
        in_report(vs, r, k),
        is_retry_name(vs[k].name),
    ensures
        report_outcome(vs, r) != Outcome::Passed,
{
    reveal(node_shows);
    assert(node_shows(vs, r, k, Finding::Retry));
    assert(shown_upto(vs, r, vs.len() as int, Finding::Retry));
    assert(finding_present(vs, r, Finding::Retry));
}

proof fn lemma_disjoint_counts(n: int, a: spec_fn(int) -> bool, b: spec_fn(int) -> bool, c: spec_fn(int) -> bool, all: spec_fn(int) -> bool)
    requires
        forall|k: int| #[trigger] a(k) ==> all(k) && !b(k) && !c(k),
        forall|k: int| #[trigger] b(k) ==> all(k) && !c(k),
        forall|k: int| #[trigger] c(k) ==> all(k),
    ensures
        count_where(n, a) + count_where(n, b) + count_where(n, c) <= count_where(n, all),
    decreases n,
{
    if n > 0 {
        lemma_disjoint_counts(n - 1, a, b, c, all);
        if a(n - 1) {} else if b(n - 1) {} else if c(n - 1) {}
    }
}

/// A report's failed, errored and skipped cases are distinct cases: together
/// they never outnumber its cases.
pub proof fn lemma_counts_within_cases(rep: TestReportInspection, vs: Seq<XmlNodeView>, r: int, sha: Seq<char>)
    requires
        report_matches(rep, vs, r, sha),
    ensures
        rep.failures + rep.errors + rep.skipped <= rep.cases,
{
    lemma_disjoint_counts(vs.len() as int, failure_pred(vs, r), error_pred(vs, r), skipped_pred(vs, r), case_pred(vs, r));
}

/// The case attributes a report may carry without review: `name`,
/// `classname`, `time`, `file`, `line` and `assertions`. A report whose cases
/// carry no other attribute never asks for a review of case attributes, and
/// one whose case carries any other attribute always does.
pub proof fn lemma_reviewed_case_attributes(vs: Seq<XmlNodeView>, r: int)
    ensures
        (forall|k: int, i: int| #![trigger vs[k].attributes[i]]
            0 <= k < vs.len() && in_report(vs, r, k) && vs[k].name == "testcase"@ && 0 <= i < vs[k].attributes.len() ==> {
                let a = vs[k].attributes[i].0;
                a == "name"@ || a == "classname"@ || a == "time"@ || a == "file"@ || a == "line"@ || a == "assertions"@
            }) ==> !finding_present(vs, r, Finding::CaseAttributes),
        (exists|k: int, i: int| #![trigger vs[k].attributes[i]]
            0 <= k < vs.len() && in_report(vs, r, k) && vs[k].name == "testcase"@ && 0 <= i < vs[k].attributes.len() && {
                let a = vs[k].attributes[i].0;
                !(a == "name"@ || a == "classname"@ || a == "time"@ || a == "file"@ || a == "line"@ || a == "assertions"@)
            }) ==> finding_present(vs, r, Finding::CaseAttributes),
{
    reveal(node_shows);
    let n = vs.len() as int;
    if finding_present(vs, r, Finding::CaseAttributes) {
        let k = choose|k: int| 0 <= k < n && in_report(vs, r, k) && #[trigger] node_shows(vs, r, k, Finding::CaseAttributes);
        let i = choose|i: int| 0 <= i < vs[k].attributes.len() && !case_attribute((#[trigger] vs[k].attributes[i]).0);
        assert(vs[k].attributes[i] == vs[k].attributes[i]);
    }
    if exists|k: int, i: int| #![trigger vs[k].attributes[i]]
        0 <= k < vs.len() && in_report(vs, r, k) && vs[k].name == "testcase"@ && 0 <= i < vs[k].attributes.len() && {
            let a = vs[k].attributes[i].0;
            !(a == "name"@ || a == "classname"@ || a == "time"@ || a == "file"@ || a == "line"@ || a == "assertions"@)
        } {
        let (k, i) = choose|k: int, i: int| #![trigger vs[k].attributes[i]]
            0 <= k < vs.len() && in_report(vs, r, k) && vs[k].name == "testcase"@ && 0 <= i < vs[k].attributes.len() && {
                let a = vs[k].attributes[i].0;
                !(a == "name"@ || a == "classname"@ || a == "time"@ || a == "file"@ || a == "line"@ || a == "assertions"@)
            };
        assert(!case_attribute(vs[k].attributes[i].0));
        assert(has_foreign_attribute(vs[k].attributes, false));
        assert(node_shows(vs, r, k, Finding::CaseAttributes));
    }
}

} // verus!
