//! Character-level text predicates and conversions shared by the library.
use vstd::prelude::*;
use vstd::string::*;

verus! {

broadcast use vstd::string::group_string_axioms;

/// Unicode general category `Cc`, which is exactly what `char::is_control` tests.
pub open spec fn is_control(c: char) -> bool {
    (c as u32) < 0x20 || (0x7f <= (c as u32) && (c as u32) < 0xa0)
}

/// The Unicode `White_Space` property, which is what `char::is_whitespace` tests.
pub open spec fn is_whitespace(c: char) -> bool {
    let n = c as u32;
    (0x09 <= n && n <= 0x0d) || n == 0x20 || n == 0x85 || n == 0xa0 || n == 0x1680
        || (0x2000 <= n && n <= 0x200a) || n == 0x2028 || n == 0x2029 || n == 0x202f
        || n == 0x205f || n == 0x3000
}

/// Text that is empty after trimming whitespace at both ends.
pub open spec fn is_blank(s: Seq<char>) -> bool {
    forall|i: int| 0 <= i < s.len() ==> is_whitespace(#[trigger] s[i])
}

/// Text containing at least one control character.
pub open spec fn has_control(s: Seq<char>) -> bool {
    exists|i: int| 0 <= i < s.len() && is_control(#[trigger] s[i])
}

/// Number of bytes in the UTF-8 encoding of one character.
pub open spec fn utf8_width(c: char) -> nat {
    if (c as u32) < 0x80 {
        1
    } else if (c as u32) < 0x800 {
        2
    } else if (c as u32) < 0x10000 {
        3
    } else {
        4
    }
}

/// Number of bytes in the UTF-8 encoding of a text (`str::len`).
pub open spec fn utf8_len(s: Seq<char>) -> nat
    decreases s.len(),
{
    if s.len() == 0 {
        0
    } else {
        utf8_len(s.drop_last()) + utf8_width(s.last())
    }
}

/// Whether the UTF-8 encoding of a text has at most `limit` bytes.
pub fn utf8_len_at_most(s: &str, limit: usize) -> (r: bool)
    ensures
        r == (utf8_len(s@) <= limit),
{
    let v = chars_of(s);
    let mut total: usize = 0;
    let mut i: usize = 0;
    while i < v.len()
        invariant
            v@ == s@,
            i <= v.len(),
            total == utf8_len(v@.subrange(0, i as int)),
            total <= limit,
        decreases v.len() - i,
    {
        let c = v[i];
        let n = c as u32;
        let w: usize = if n < 0x80 { 1 } else if n < 0x800 { 2 } else if n < 0x10000 { 3 } else { 4 };
        assert(v@.subrange(0, i + 1).drop_last() =~= v@.subrange(0, i as int));
        if w > limit - total {
            proof { lemma_utf8_len_prefix(v@, i + 1); }
            return false;
        }
        total = total + w;
        i = i + 1;
    }
    assert(v@.subrange(0, v@.len() as int) =~= v@);
    true
}

/// The encoded length of a prefix never exceeds that of the whole text.
pub proof fn lemma_utf8_len_prefix(s: Seq<char>, n: int)
    requires
        0 <= n <= s.len(),
    ensures
        utf8_len(s.subrange(0, n)) <= utf8_len(s),
    decreases s.len() - n,
{
    if n < s.len() {
        lemma_utf8_len_prefix(s, n + 1);
        assert(s.subrange(0, n + 1).drop_last() =~= s.subrange(0, n));
    } else {
        assert(s.subrange(0, n) =~= s);
    }
}

pub fn char_is_control(c: char) -> (r: bool)
    ensures
        r == is_control(c),
{
    let n = c as u32;
    n < 0x20 || (0x7f <= n && n < 0xa0)
}

pub fn char_is_whitespace(c: char) -> (r: bool)
    ensures
        r == is_whitespace(c),
{
    let n = c as u32;
    (0x09 <= n && n <= 0x0d) || n == 0x20 || n == 0x85 || n == 0xa0 || n == 0x1680 || (0x2000
        <= n && n <= 0x200a) || n == 0x2028 || n == 0x2029 || n == 0x202f || n == 0x205f || n
        == 0x3000
}

/// The characters of a string, in order.
pub fn chars_of(s: &str) -> (v: Vec<char>)
    ensures
        v@ == s@,
{
    let mut v: Vec<char> = Vec::new();
    for c in it: s.chars()
        invariant
            it.seq() == s@,
            v@ == it.seq().take(it.index() as int),
    {
        v.push(c);
    }
    v
}

/// Builds a `String` holding exactly the given characters.
#[verifier::external_body]
pub(crate) fn string_of(chars: &[char]) -> (s: String)
    ensures
        s@ == chars@,
{
    String::from_iter(chars)
}

/// Whether text is empty after trimming whitespace (`str::trim().is_empty()`).
pub fn blank(s: &str) -> (r: bool)
    ensures
        r == is_blank(s@),
{
    let v = chars_of(s);
    let mut i: usize = 0;
    while i < v.len()
        invariant
            v@ == s@,
            i <= v.len(),
            forall|j: int| 0 <= j < i ==> is_whitespace(#[trigger] v@[j]),
        decreases v.len() - i,
    {
        if !char_is_whitespace(v[i]) {
            return false;
        }
        i = i + 1;
    }
    true
}

/// Whether text contains a control character (`chars().any(char::is_control)`).
pub fn contains_control(s: &str) -> (r: bool)
    ensures
        r == has_control(s@),
{
    let v = chars_of(s);
    let mut i: usize = 0;
    while i < v.len()
        invariant
            v@ == s@,
            i <= v.len(),
            forall|j: int| 0 <= j < i ==> !is_control(#[trigger] v@[j]),
        decreases v.len() - i,
    {
        if char_is_control(v[i]) {
            return true;
        }
        i = i + 1;
    }
    false
}

/// Exact equality of two texts.
pub fn same_text(a: &str, b: &str) -> (r: bool)
    ensures
        r == (a@ == b@),
{
    let x = chars_of(a);
    let y = chars_of(b);
    if x.len() != y.len() {
        return false;
    }
    let mut i: usize = 0;
    while i < x.len()
        invariant
            x@ == a@,
            y@ == b@,
            x.len() == y.len(),
            i <= x.len(),
            forall|j: int| 0 <= j < i ==> x@[j] == y@[j],
        decreases x.len() - i,
    {
        if x[i] != y[i] {
            return false;
        }
        i = i + 1;
    }
    assert(x@ =~= y@);
    true
}

/// A copy of a string with the same characters.
pub fn copy_string(s: &String) -> (r: String)
    ensures
        r == *s,
{
    s.clone()
}

/// A string holding the characters of a literal or slice.
pub fn owned(s: &str) -> (r: String)
    ensures
        r@ == s@,
{
    s.to_owned()
}

/// Concatenation of two texts.
pub fn joined(a: &str, b: &str) -> (r: String)
    ensures
        r@ == a@ + b@,
{
    let mut s = a.to_owned();
    s.append(b);
    s
}

} // verus!

verus! {

/// ASCII lower-casing of one character; other characters are unchanged.
pub open spec fn ascii_lower(c: char) -> char {
    if 'A' <= c && c <= 'Z' {
        ((c as u32) + 32) as char
    } else {
        c
    }
}

/// `str::eq_ignore_ascii_case`.
pub open spec fn same_ignoring_ascii_case(a: Seq<char>, b: Seq<char>) -> bool {
    a.len() == b.len() && forall|i: int| 0 <= i < a.len() ==> ascii_lower(#[trigger] a[i]) == ascii_lower(b[i])
}

fn lower_char(c: char) -> (r: char)
    ensures
        r == ascii_lower(c),
{
    if 'A' <= c && c <= 'Z' {
        let b: u8 = (c as u32 + 32) as u8;
        b as char
    } else {
        c
    }
}

/// ASCII case-insensitive equality.
pub fn eq_ignore_ascii_case(a: &str, b: &str) -> (r: bool)
    ensures
        r == same_ignoring_ascii_case(a@, b@),
{
    let x = chars_of(a);
    let y = chars_of(b);
    if x.len() != y.len() {
        return false;
    }
    let mut i: usize = 0;
    while i < x.len()
        invariant
            x@ == a@,
            y@ == b@,
            x.len() == y.len(),
            i <= x.len(),
            forall|j: int| 0 <= j < i ==> ascii_lower(#[trigger] x@[j]) == ascii_lower(y@[j]),
        decreases x.len() - i,
    {
        if lower_char(x[i]) != lower_char(y[i]) {
            return false;
        }
        i = i + 1;
    }
    true
}

/// The `Debug` rendering of a text: quoted, with special characters escaped.
pub uninterp spec fn debug_quoted(s: Seq<char>) -> Seq<char>;

/// `format!("{s:?}")`.
#[verifier::external_body]
pub(crate) fn debug_text(s: &str) -> (r: String)
    ensures
        r@ == debug_quoted(s@),
{
    format!("{s:?}")
}


/// The decimal digit character for `d < 10`.
pub open spec fn digit_char(d: nat) -> char {
    ((d + 48) as u32) as char
}

/// The decimal notation of a natural number, without leading zeros.
pub open spec fn decimal(n: nat) -> Seq<char>
    decreases n,
{
    if n < 10 {
        seq![digit_char(n)]
    } else {
        decimal(n / 10).push(digit_char(n % 10))
    }
}

fn decimal_chars(n: u64) -> (r: Vec<char>)
    ensures
        r@ == decimal(n as nat),
    decreases n,
{
    if n < 10 {
        let c = ((n as u8) + 48) as char;
        assert(c == digit_char(n as nat));
        let mut v: Vec<char> = Vec::new();
        v.push(c);
        assert(v@ =~= seq![digit_char(n as nat)]);
        v
    } else {
        let mut v = decimal_chars(n / 10);
        let d = n % 10;
        let c = ((d as u8) + 48) as char;
        assert(c == digit_char((n % 10) as nat));
        v.push(c);
        v
    }
}

/// `n.to_string()` for an unsigned integer.
pub fn decimal_text(n: u64) -> (r: String)
    ensures
        r@ == decimal(n as nat),
{
    let v = decimal_chars(n);
    string_of(v.as_slice())
}

/// Lexicographic order of texts by character, as `str` orders them.
pub open spec fn text_le(a: Seq<char>, b: Seq<char>) -> bool
    decreases a.len(),
{
    if a.len() == 0 {
        true
    } else if b.len() == 0 {
        false
    } else if a[0] != b[0] {
        a[0] < b[0]
    } else {
        text_le(a.drop_first(), b.drop_first())
    }
}

pub fn text_le_exec(a: &str, b: &str) -> (r: bool)
    ensures
        r == text_le(a@, b@),
{
    let x = chars_of(a);
    let y = chars_of(b);
    let mut i: usize = 0;
    assert(a@.skip(0) =~= a@);
    assert(b@.skip(0) =~= b@);
    while i < x.len() && i < y.len() && x[i] == y[i]
        invariant
            x@ == a@,
            y@ == b@,
            i <= x@.len(),
            i <= y@.len(),
            text_le(a@, b@) == text_le(a@.skip(i as int), b@.skip(i as int)),
        decreases x.len() - i,
    {
        let ghost p = a@.skip(i as int);
        let ghost q = b@.skip(i as int);
        assert(p.drop_first() =~= a@.skip(i + 1));
        assert(q.drop_first() =~= b@.skip(i + 1));
        i = i + 1;
    }
    if i == x.len() {
        assert(a@.skip(i as int).len() == 0);
        true
    } else if i == y.len() {
        assert(b@.skip(i as int).len() == 0);
        false
    } else {
        assert(a@.skip(i as int)[0] == x@[i as int]);
        assert(b@.skip(i as int)[0] == y@[i as int]);
        x[i] < y[i]
    }
}

/// Texts in ascending order, by insertion.
pub open spec fn insert_sorted(s: Seq<Seq<char>>, x: Seq<char>) -> Seq<Seq<char>>
    decreases s.len(),
{
    if s.len() == 0 {
        seq![x]
    } else if text_le(x, s[0]) {
        seq![x] + s
    } else {
        seq![s[0]] + insert_sorted(s.drop_first(), x)
    }
}

pub open spec fn sorted_texts(v: Seq<Seq<char>>) -> Seq<Seq<char>>
    decreases v.len(),
{
    if v.len() == 0 {
        Seq::empty()
    } else {
        insert_sorted(sorted_texts(v.drop_last()), v.last())
    }
}

pub open spec fn text_views(v: Seq<String>) -> Seq<Seq<char>> {
    v.map_values(|s: String| s@)
}

proof fn lemma_insert_at(s: Seq<Seq<char>>, x: Seq<char>, p: int)
    requires
        0 <= p <= s.len(),
        forall|k: int| 0 <= k < p ==> !text_le(x, #[trigger] s[k]),
        p < s.len() ==> text_le(x, s[p]),
    ensures
        insert_sorted(s, x) == s.take(p) + seq![x] + s.skip(p),
    decreases s.len(),
{
    if s.len() == 0 {
        assert(s.take(p) + seq![x] + s.skip(p) =~= seq![x]);
    } else if p == 0 {
        assert(s.take(p) + seq![x] + s.skip(p) =~= seq![x] + s);
    } else {
        assert(!text_le(x, s[0]));
        let t = s.drop_first();
        assert forall|k: int| 0 <= k < p - 1 implies !text_le(x, #[trigger] t[k]) by {
            assert(t[k] == s[k + 1]);
        }
        if p - 1 < t.len() {
            assert(t[p - 1] == s[p]);
        }
        lemma_insert_at(t, x, p - 1);
        assert(seq![s[0]] + (t.take(p - 1) + seq![x] + t.skip(p - 1)) =~= s.take(p) + seq![x] + s.skip(p));
    }
}

/// Sorts texts in ascending order (`slice::sort` on strings).
pub fn sort_texts(v: Vec<String>) -> (r: Vec<String>)
    ensures
        text_views(r@) == sorted_texts(text_views(v@)),
{
    let mut out: Vec<String> = Vec::new();
    let mut i: usize = 0;
    assert(text_views(v@).subrange(0, 0) =~= Seq::<Seq<char>>::empty());
    while i < v.len()
        invariant
            i <= v@.len(),
            text_views(out@) == sorted_texts(text_views(v@).subrange(0, i as int)),
        decreases v.len() - i,
    {
        let ghost pre = text_views(v@).subrange(0, i as int);
        assert(text_views(v@).subrange(0, i + 1).drop_last() =~= pre);
        assert(text_views(v@).subrange(0, i + 1).last() == v@[i as int]@);
        let x = copy_string(&v[i]);
        let mut p: usize = 0;
        while p < out.len() && !text_le_exec(x.as_str(), out[p].as_str())
            invariant
                p <= out@.len(),
                forall|k: int| 0 <= k < p ==> !text_le(x@, #[trigger] text_views(out@)[k]),
            decreases out.len() - p,
        {
            p = p + 1;
        }
        proof {
            lemma_insert_at(text_views(out@), x@, p as int);
        }
        let ghost before = out@;
        out.insert(p, x);
        assert(text_views(out@) =~= text_views(before).take(p as int) + seq![x@] + text_views(before).skip(p as int));
        i = i + 1;
    }
    assert(text_views(v@).subrange(0, v@.len() as int) =~= text_views(v@));
    out
}

/// The texts joined with a separator (`slice::join`).
pub open spec fn joined_with(v: Seq<Seq<char>>, sep: Seq<char>) -> Seq<char>
    decreases v.len(),
{
    if v.len() == 0 {
        Seq::empty()
    } else if v.len() == 1 {
        v[0]
    } else {
        joined_with(v.drop_last(), sep) + sep + v.last()
    }
}

pub fn join_texts(v: &Vec<String>, sep: &str) -> (r: String)
    ensures
        r@ == joined_with(text_views(v@), sep@),
{
    let mut out = String::new();
    let mut i: usize = 0;
    assert(text_views(v@).subrange(0, 0) =~= Seq::<Seq<char>>::empty());
    while i < v.len()
        invariant
            i <= v@.len(),
            out@ == joined_with(text_views(v@).subrange(0, i as int), sep@),
        decreases v.len() - i,
    {
        let ghost pre = text_views(v@).subrange(0, i as int);
        assert(text_views(v@).subrange(0, i + 1).drop_last() =~= pre);
        assert(text_views(v@).subrange(0, i + 1).last() == v@[i as int]@);
        if i > 0 {
            out.append(sep);
        }
        out.append(v[i].as_str());
        proof {
            if i == 0 {
                assert(out@ =~= v@[0]@);
            }
        }
        i = i + 1;
    }
    assert(text_views(v@).subrange(0, v@.len() as int) =~= text_views(v@));
    out
}


/// Whether `p` occurs in `s` at position `i`.
pub open spec fn occurs_at(s: Seq<char>, p: Seq<char>, i: int) -> bool {
    0 <= i && i + p.len() <= s.len() && s.subrange(i, i + p.len()) == p
}

/// Whether `p` occurs anywhere in `s` (`str::contains`).
pub open spec fn contains_text(s: Seq<char>, p: Seq<char>) -> bool {
    exists|i: int| occurs_at(s, p, i)
}

/// The positions at which `p` occurs in `s`, ascending.
pub open spec fn positions(s: Seq<char>, p: Seq<char>) -> Seq<int>
    decreases s.len(),
{
    if s.len() < p.len() || s.len() == 0 {
        Seq::empty()
    } else {
        let earlier = positions(s.drop_last(), p);
        if s.subrange(s.len() - p.len(), s.len() as int) == p {
            earlier.push(s.len() - p.len())
        } else {
            earlier
        }
    }
}

/// The positions at which `p` occurs in `s`, found by scanning.
pub fn find_all(s: &Vec<char>, p: &Vec<char>) -> (r: Vec<usize>)
    requires
        p@.len() > 0,
    ensures
        r@.len() == positions(s@, p@).len(),
        forall|k: int| 0 <= k < r@.len() ==> r@[k] as int == positions(s@, p@)[k],
{
    let mut out: Vec<usize> = Vec::new();
    let mut n: usize = 0;
    assert(s@.subrange(0, 0) =~= Seq::<char>::empty());
    while n < s.len()
        invariant
            n <= s@.len(),
            p@.len() > 0,
            out@.len() == positions(s@.subrange(0, n as int), p@).len(),
            forall|k: int| 0 <= k < out@.len() ==> out@[k] as int == positions(s@.subrange(0, n as int), p@)[k],
        decreases s.len() - n,
    {
        let m = n + 1;
        let ghost pre = s@.subrange(0, m as int);
        assert(pre.drop_last() =~= s@.subrange(0, n as int));
        if m >= p.len() {
            let start = m - p.len();
            let mut j: usize = 0;
            let mut same = true;
            while j < p.len()
                invariant
                    m >= p@.len(),
                    start == m - p@.len(),
                    m <= s@.len(),
                    j <= p@.len(),
                    same == forall|q: int| 0 <= q < j ==> s@[start + q] == p@[q],
                decreases p.len() - j,
            {
                if s[start + j] != p[j] {
                    same = false;
                }
                j = j + 1;
            }
            proof {
                if same {
                    assert(pre.subrange(pre.len() - p@.len(), pre.len() as int) =~= p@);
                } else {
                    let q = choose|q: int| 0 <= q < p@.len() && s@[start + q] != p@[q];
                    assert(pre.subrange(pre.len() - p@.len(), pre.len() as int)[q] != p@[q]);
                }
            }
            if same {
                out.push(start);
            }
        }
        n = m;
    }
    assert(s@.subrange(0, s@.len() as int) =~= s@);
    out
}

/// Every line ending `\n` replaced by `nl` (`str::replace('\n', nl)`).
pub open spec fn replace_newlines(s: Seq<char>, nl: Seq<char>) -> Seq<char>
    decreases s.len(),
{
    if s.len() == 0 {
        Seq::empty()
    } else if s.last() == '\n' {
        replace_newlines(s.drop_last(), nl) + nl
    } else {
        replace_newlines(s.drop_last(), nl).push(s.last())
    }
}

pub fn replace_newlines_exec(s: &Vec<char>, nl: &Vec<char>) -> (r: Vec<char>)
    ensures
        r@ == replace_newlines(s@, nl@),
{
    let mut out: Vec<char> = Vec::new();
    let mut i: usize = 0;
    assert(s@.subrange(0, 0) =~= Seq::<char>::empty());
    while i < s.len()
        invariant
            i <= s@.len(),
            out@ == replace_newlines(s@.subrange(0, i as int), nl@),
        decreases s.len() - i,
    {
        assert(s@.subrange(0, i + 1).drop_last() =~= s@.subrange(0, i as int));
        assert(s@.subrange(0, i + 1).last() == s@[i as int]);
        if s[i] == '\n' {
            let mut j: usize = 0;
            let ghost base = out@;
            while j < nl.len()
                invariant
                    j <= nl@.len(),
                    out@ == base + nl@.subrange(0, j as int),
                decreases nl.len() - j,
            {
                out.push(nl[j]);
                assert(nl@.subrange(0, j + 1) =~= nl@.subrange(0, j as int).push(nl@[j as int]));
                j = j + 1;
            }
            assert(nl@.subrange(0, nl@.len() as int) =~= nl@);
        } else {
            out.push(s[i]);
        }
        i = i + 1;
    }
    assert(s@.subrange(0, s@.len() as int) =~= s@);
    out
}

/// Text without trailing `\r` and `\n` characters (`trim_end_matches`).
pub open spec fn trim_line_ends(s: Seq<char>) -> Seq<char>
    decreases s.len(),
{
    if s.len() > 0 && (s.last() == '\r' || s.last() == '\n') {
        trim_line_ends(s.drop_last())
    } else {
        s
    }
}

pub fn trim_line_ends_exec(s: &Vec<char>) -> (r: usize)
    ensures
        r <= s@.len(),
        s@.subrange(0, r as int) == trim_line_ends(s@),
{
    let mut n = s.len();
    assert(s@.subrange(0, n as int) =~= s@);
    while n > 0 && (s[n - 1] == '\r' || s[n - 1] == '\n')
        invariant
            n <= s@.len(),
            trim_line_ends(s@) == trim_line_ends(s@.subrange(0, n as int)),
        decreases n,
    {
        assert(s@.subrange(0, n as int).drop_last() =~= s@.subrange(0, n - 1));
        n = n - 1;
    }
    n
}

/// Text without leading and trailing whitespace (`str::trim`).
pub open spec fn trim_start(s: Seq<char>) -> Seq<char>
    decreases s.len(),
{
    if s.len() > 0 && is_whitespace(s[0]) {
        trim_start(s.drop_first())
    } else {
        s
    }
}

pub open spec fn trim_end(s: Seq<char>) -> Seq<char>
    decreases s.len(),
{
    if s.len() > 0 && is_whitespace(s.last()) {
        trim_end(s.drop_last())
    } else {
        s
    }
}

pub open spec fn trimmed(s: Seq<char>) -> Seq<char> {
    trim_end(trim_start(s))
}

/// `s.split(sep)`.
pub open spec fn split_by(s: Seq<char>, sep: char) -> Seq<Seq<char>>
    decreases s.len(),
{
    if s.len() == 0 {
        seq![Seq::empty()]
    } else if s.last() == sep {
        split_by(s.drop_last(), sep).push(Seq::empty())
    } else {
        let p = split_by(s.drop_last(), sep);
        p.update(p.len() - 1, p.last().push(s.last()))
    }
}

/// Trimming the start skips exactly the leading whitespace.
pub proof fn lemma_trim_start(s: Seq<char>, a: int)
    requires
        0 <= a <= s.len(),
        forall|i: int| 0 <= i < a ==> is_whitespace(#[trigger] s[i]),
        a < s.len() ==> !is_whitespace(s[a]),
    ensures
        trim_start(s) == s.skip(a),
    decreases a,
{
    if a == 0 {
        assert(s.skip(0) =~= s);
    } else {
        let t = s.drop_first();
        assert forall|i: int| 0 <= i < a - 1 implies is_whitespace(#[trigger] t[i]) by {
            assert(t[i] == s[i + 1]);
        }
        if a - 1 < t.len() {
            assert(t[a - 1] == s[a]);
        }
        lemma_trim_start(t, a - 1);
        assert(t.skip(a - 1) =~= s.skip(a));
    }
}

/// Trimming the end keeps exactly the text before the trailing whitespace.
pub proof fn lemma_trim_end(s: Seq<char>, b: int)
    requires
        0 <= b <= s.len(),
        forall|i: int| b <= i < s.len() ==> is_whitespace(#[trigger] s[i]),
        b > 0 ==> !is_whitespace(s[b - 1]),
    ensures
        trim_end(s) == s.take(b),
    decreases s.len() - b,
{
    if b == s.len() {
        assert(s.take(b) =~= s);
    } else {
        let t = s.drop_last();
        assert forall|i: int| b <= i < t.len() implies is_whitespace(#[trigger] t[i]) by {
            assert(t[i] == s[i]);
        }
        if b > 0 {
            assert(t[b - 1] == s[b - 1]);
        }
        lemma_trim_end(t, b);
        assert(t.take(b) =~= s.take(b));
    }
}


/// The bounds of a text without leading and trailing whitespace.
pub fn trim_bounds(line: &Vec<char>) -> (r: (usize, usize))
    ensures
        r.0 <= r.1 <= line@.len(),
        line@.subrange(r.0 as int, r.1 as int) == trimmed(line@),
{
    let mut a: usize = 0;
    while a < line.len() && char_is_whitespace(line[a])
        invariant
            a <= line@.len(),
            forall|i: int| 0 <= i < a ==> is_whitespace(#[trigger] line@[i]),
        decreases line.len() - a,
    {
        a = a + 1;
    }
    proof { lemma_trim_start(line@, a as int); }
    let ghost t = line@.skip(a as int);
    let mut b: usize = line.len();
    while b > a && char_is_whitespace(line[b - 1])
        invariant
            a <= b <= line@.len(),
            t == line@.skip(a as int),
            forall|i: int| b - a <= i < t.len() ==> is_whitespace(#[trigger] t[i]),
        decreases b,
    {
        assert(t[b - 1 - a] == line@[b - 1]);
        b = b - 1;
    }
    proof {
        if b > a {
            assert(t[b - a - 1] == line@[b - 1]);
        }
        lemma_trim_end(t, (b - a) as int);
        assert(t.take((b - a) as int) =~= line@.subrange(a as int, b as int));
    }
    (a, b)
}

/// Whether `p` occurs in `s` (`str::contains`).
pub fn contains_chars(s: &Vec<char>, p: &Vec<char>) -> (r: bool)
    ensures
        r == contains_text(s@, p@),
{
    if p.len() > s.len() {
        assert forall|i: int| !occurs_at(s@, p@, i) by {}
        return false;
    }
    let n = s.len();
    let last = n - p.len();
    let mut i: usize = 0;
    let mut done = false;
    while !done
        invariant
            n == s@.len(),
            p@.len() <= s@.len(),
            last == s@.len() - p@.len(),
            i <= last,
            forall|q: int| 0 <= q < i ==> !occurs_at(s@, p@, q),
            done ==> i == last && !occurs_at(s@, p@, i as int),
        decreases last - i + (if done { 0int } else { 1int }),
    {
        let mut j: usize = 0;
        let mut same = true;
        while j < p.len()
            invariant
                n == s@.len(),
                p@.len() <= s@.len(),
                i <= last,
                last == s@.len() - p@.len(),
                j <= p@.len(),
                same == forall|t: int| 0 <= t < j ==> s@[i + t] == p@[t],
            decreases p.len() - j,
        {
            if s[i + j] != p[j] {
                same = false;
            }
            j = j + 1;
        }
        if same {
            assert(s@.subrange(i as int, i + p@.len()) =~= p@);
            assert(occurs_at(s@, p@, i as int));
            return true;
        }
        proof {
            let t = choose|t: int| 0 <= t < p@.len() && s@[i + t] != p@[t];
            assert(s@.subrange(i as int, i + p@.len())[t] != p@[t]);
        }
        if i == last {
            done = true;
        } else {
            i = i + 1;
        }
    }
    assert forall|q: int| !occurs_at(s@, p@, q) by {
        if 0 <= q && q + p@.len() <= s@.len() {
            assert(q <= last);
        }
    }
    false
}

/// Whether `s` begins with `p` (`str::starts_with`).
pub fn starts_with_chars(s: &Vec<char>, p: &str) -> (r: bool)
    ensures
        r == (p@.len() <= s@.len() && s@.subrange(0, p@.len() as int) == p@),
{
    let q = chars_of(p);
    if q.len() > s.len() {
        return false;
    }
    let mut j: usize = 0;
    while j < q.len()
        invariant
            q@ == p@,
            q@.len() <= s@.len(),
            j <= q@.len(),
            forall|t: int| 0 <= t < j ==> s@[t] == q@[t],
        decreases q.len() - j,
    {
        if s[j] != q[j] {
            assert(s@.subrange(0, q@.len() as int)[j as int] != q@[j as int]);
            return false;
        }
        j = j + 1;
    }
    assert(s@.subrange(0, q@.len() as int) =~= q@);
    true
}

/// Whether `s` ends with `p` (`str::ends_with`).
pub fn ends_with_chars(s: &Vec<char>, p: &Vec<char>) -> (r: bool)
    ensures
        r == (p@.len() <= s@.len() && s@.subrange(s@.len() - p@.len(), s@.len() as int) == p@),
{
    if p.len() > s.len() {
        return false;
    }
    let n = s.len();
    let off = n - p.len();
    let mut j: usize = 0;
    while j < p.len()
        invariant
            n == s@.len(),
            p@.len() <= s@.len(),
            off == s@.len() - p@.len(),
            j <= p@.len(),
            forall|t: int| 0 <= t < j ==> s@[off + t] == p@[t],
        decreases p.len() - j,
    {
        if s[off + j] != p[j] {
            assert(s@.subrange(off as int, s@.len() as int)[j as int] != p@[j as int]);
            return false;
        }
        j = j + 1;
    }
    assert(s@.subrange(off as int, s@.len() as int) =~= p@);
    true
}

/// An occurrence within a prefix is an occurrence in the whole text.
pub proof fn lemma_occurs_in_prefix(s: Seq<char>, p: Seq<char>, n: int, i: int)
    requires
        0 <= n <= s.len(),
        i + p.len() <= n,
    ensures
        occurs_at(s.subrange(0, n), p, i) == occurs_at(s, p, i),
{
    if 0 <= i {
        assert(s.subrange(0, n).subrange(i, i + p.len()) =~= s.subrange(i, i + p.len()));
    }
}

/// Every listed position is an occurrence, every occurrence is listed, and
/// the positions ascend.
pub proof fn lemma_positions(s: Seq<char>, p: Seq<char>)
    requires
        p.len() > 0,
    ensures
        forall|k: int| 0 <= k < positions(s, p).len() ==> occurs_at(s, p, #[trigger] positions(s, p)[k]),
        forall|i: int| occurs_at(s, p, i) ==> positions(s, p).contains(i),
        forall|a: int, b: int| 0 <= a < b < positions(s, p).len() ==> positions(s, p)[a] < positions(s, p)[b],
    decreases s.len(),
{
    if s.len() < p.len() || s.len() == 0 {
        assert forall|i: int| occurs_at(s, p, i) implies positions(s, p).contains(i) by {}
    } else {
        let t = s.drop_last();
        let earlier = positions(t, p);
        lemma_positions(t, p);
        assert(t =~= s.subrange(0, s.len() - 1));
        assert forall|k: int| 0 <= k < earlier.len() implies occurs_at(s, p, #[trigger] earlier[k]) && earlier[k] < s.len() - p.len() by {
            assert(occurs_at(t, p, earlier[k]));
            lemma_occurs_in_prefix(s, p, s.len() - 1, earlier[k]);
        }
        assert forall|i: int| occurs_at(s, p, i) implies positions(s, p).contains(i) by {
            if i + p.len() <= t.len() {
                lemma_occurs_in_prefix(s, p, s.len() - 1, i);
                assert(earlier.contains(i));
                let w = choose|w: int| 0 <= w < earlier.len() && earlier[w] == i;
                if s.subrange(s.len() - p.len(), s.len() as int) == p {
                    assert(positions(s, p)[w] == i);
                } else {
                    assert(positions(s, p)[w] == i);
                }
            } else {
                assert(i == s.len() - p.len());
                assert(positions(s, p) == earlier.push(i));
                assert(positions(s, p)[earlier.len() as int] == i);
            }
        }
        if s.subrange(s.len() - p.len(), s.len() as int) == p {
            let r = earlier.push(s.len() - p.len());
            assert(positions(s, p) == r);
            assert forall|k: int| 0 <= k < r.len() implies occurs_at(s, p, #[trigger] r[k]) by {
                if k < earlier.len() {
                    assert(r[k] == earlier[k]);
                }
            }
            assert forall|a: int, b: int| 0 <= a < b < r.len() implies r[a] < r[b] by {
                if b < earlier.len() {
                    assert(r[a] == earlier[a] && r[b] == earlier[b]);
                } else {
                    assert(r[a] == earlier[a]);
                }
            }
        }
    }
}

/// A text in which a pattern occurs at exactly one position lists exactly that position.
pub proof fn lemma_single_position(s: Seq<char>, p: Seq<char>, k: int)
    requires
        p.len() > 0,
        occurs_at(s, p, k),
        forall|i: int| occurs_at(s, p, i) ==> i == k,
    ensures
        positions(s, p) == seq![k],
{
    lemma_positions(s, p);
    let ps = positions(s, p);
    assert(ps.contains(k));
    assert forall|j: int| 0 <= j < ps.len() implies ps[j] == k by {
        assert(occurs_at(s, p, ps[j]));
    }
    if ps.len() > 1 {
        assert(ps[0] < ps[1]);
    }
    assert(ps =~= seq![k]);
}

/// A text in which a pattern never occurs lists no position.
pub proof fn lemma_no_position(s: Seq<char>, p: Seq<char>)
    requires
        p.len() > 0,
        forall|i: int| !occurs_at(s, p, i),
    ensures
        positions(s, p).len() == 0,
{
    lemma_positions(s, p);
    if positions(s, p).len() > 0 {
        assert(occurs_at(s, p, positions(s, p)[0]));
    }
}

/// Any two texts are ordered one way or the other.
pub proof fn lemma_text_le_total(a: Seq<char>, b: Seq<char>)
    ensures
        text_le(a, b) || text_le(b, a),
    decreases a.len(),
{
    if a.len() > 0 && b.len() > 0 && a[0] == b[0] {
        lemma_text_le_total(a.drop_first(), b.drop_first());
    }
}

/// The order of texts is transitive.
pub proof fn lemma_text_le_transitive(a: Seq<char>, b: Seq<char>, c: Seq<char>)
    requires
        text_le(a, b),
        text_le(b, c),
    ensures
        text_le(a, c),
    decreases a.len(),
{
    if a.len() > 0 && a[0] == b[0] && b[0] == c[0] {
        lemma_text_le_transitive(a.drop_first(), b.drop_first(), c.drop_first());
    }
}

} // verus!
