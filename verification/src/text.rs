//! Character-level helpers shared by the library: conversions between
//! strings and character vectors, and the character classes the rules use.
use unicode_normalization::UnicodeNormalization;
use vstd::prelude::*;

verus! {

/// What `char::is_alphanumeric` answers for a character (Unicode
/// Alphabetic or Numeric); the tables behind it are std's.
pub uninterp spec fn unicode_alphanumeric(c: char) -> bool;

/// The characters that `char::to_lowercase` yields for a character,
/// following Unicode's lowercase mapping.
pub uninterp spec fn unicode_lowercase(c: char) -> Seq<char>;

/// The compatibility decomposition (NFKD) of a character sequence as the
/// `unicode-normalization` crate computes it.
pub uninterp spec fn nfkd_of(s: Seq<char>) -> Seq<char>;

/// What `char::is_numeric` answers for a character (Unicode general
/// categories Nd, Nl and No); the tables behind it are std's.
pub uninterp spec fn unicode_numeric(c: char) -> bool;

/// Calls `char::is_numeric`; the result is the Unicode property named by
/// `unicode_numeric`, which among ASCII characters holds of the digits
/// alone.
#[verifier::external_body]
pub(crate) fn is_numeric(c: char) -> (r: bool)
    ensures
        r == unicode_numeric(c),
        c <= '\x7f' ==> (r <==> ('0' <= c && c <= '9')),
{
    c.is_numeric()
}

/// Calls `char::is_alphanumeric`; the result is the Unicode property named
/// by `unicode_alphanumeric`, which among ASCII characters holds of the
/// letters and digits alone.
#[verifier::external_body]
pub(crate) fn is_alphanumeric(c: char) -> (r: bool)
    ensures
        r == unicode_alphanumeric(c),
        c <= '\x7f' ==> (r <==> is_ascii_alnum(c)),
{
    c.is_alphanumeric()
}

/// Calls `char::to_lowercase` and collects the characters it yields; they
/// are the Unicode lowercase mapping named by `unicode_lowercase`, which
/// maps an ASCII character to its ASCII lowercase alone.
#[verifier::external_body]
pub(crate) fn lowercase(c: char) -> (r: Vec<char>)
    ensures
        r@ == unicode_lowercase(c),
        c <= '\x7f' ==> r@ == seq![ascii_lower_char(c)],
{
    c.to_lowercase().collect()
}

/// Calls `UnicodeNormalization::nfkd` of the `unicode-normalization` crate
/// and collects the decomposed characters into a `String`; ASCII text has
/// no decomposition and comes back unchanged.
#[verifier::external_body]
pub(crate) fn nfkd(s: &str) -> (r: String)
    ensures
        r@ == nfkd_of(s@),
        (forall|i: int| 0 <= i < s@.len() ==> #[trigger] s@[i] <= '\x7f') ==> r@ == s@,
{
    s.nfkd().collect()
}

/// Calls `String::push`: the character is appended at the end.
#[verifier::external_body]
pub(crate) fn push_char(s: &mut String, c: char)
    ensures
        final(s)@ == old(s)@.push(c),
{
    s.push(c)
}

/// Calls `String::push_str`: the text is appended at the end.
#[verifier::external_body]
pub(crate) fn push_str(s: &mut String, t: &str)
    ensures
        final(s)@ == old(s)@ + t@,
{
    s.push_str(t)
}

/// The characters of a string slice, in order.
pub fn chars_of(s: &str) -> (r: Vec<char>)
    ensures
        r@ == s@,
{
    let mut out: Vec<char> = Vec::new();
    for c in it: s.chars()
        invariant
            out@ == it.seq().take(it.index() as int),
            it.seq() == s@,
    {
        out.push(c);
    }
    out
}

/// A string holding exactly the given characters.
pub fn string_of(cs: &[char]) -> (r: String)
    ensures
        r@ == cs@,
{
    let mut out = String::new();
    let mut i: usize = 0;
    while i < cs.len()
        invariant
            i <= cs@.len(),
            out@ == cs@.take(i as int),
        decreases cs@.len() - i,
    {
        push_char(&mut out, cs[i]);
        i = i + 1;
        assert(cs@.take(i as int) == cs@.take((i - 1) as int).push(cs@[i - 1]));
    }
    assert(cs@.take(cs@.len() as int) == cs@);
    out
}

/// Appends the characters of a slice to a string.
pub fn push_chars(s: &mut String, cs: &[char])
    ensures
        final(s)@ == old(s)@ + cs@,
{
    let mut i: usize = 0;
    while i < cs.len()
        invariant
            i <= cs@.len(),
            s@ == old(s)@ + cs@.take(i as int),
        decreases cs@.len() - i,
    {
        push_char(s, cs[i]);
        i = i + 1;
        assert(cs@.take(i as int) == cs@.take((i - 1) as int).push(cs@[i - 1]));
    }
    assert(cs@.take(cs@.len() as int) == cs@);
}

/// Whether two character sequences are equal.
pub fn chars_eq(a: &[char], b: &[char]) -> (r: bool)
    ensures
        r == (a@ == b@),
{
    if a.len() != b.len() {
        return false;
    }
    let mut i: usize = 0;
    while i < a.len()
        invariant
            a@.len() == b@.len(),
            i <= a@.len(),
            forall|j: int| 0 <= j < i ==> a@[j] == b@[j],
        decreases a@.len() - i,
    {
        if a[i] != b[i] {
            return false;
        }
        i = i + 1;
    }
    assert(a@ =~= b@);
    true
}

/// Whether two strings hold the same characters.
pub fn str_eq(a: &str, b: &str) -> (r: bool)
    ensures
        r == (a@ == b@),
{
    let x = chars_of(a);
    let y = chars_of(b);
    chars_eq(&x, &y)
}

/// A copy of a string slice as an owned `String`.
pub fn owned(s: &str) -> (r: String)
    ensures
        r@ == s@,
{
    s.to_owned()
}

/// Whether a character is a control character (general category Cc):
/// U+0000 to U+001F and U+007F to U+009F.
pub open spec fn is_control_char(c: char) -> bool {
    (c as u32) <= 0x1f || (0x7f <= (c as u32) && (c as u32) <= 0x9f)
}

/// `char::is_control`: the Cc range is two short intervals.
pub fn is_control(c: char) -> (r: bool)
    ensures
        r == is_control_char(c),
{
    let n = c as u32;
    n <= 0x1f || (0x7f <= n && n <= 0x9f)
}

/// ASCII letters and digits.
pub open spec fn is_ascii_alnum(c: char) -> bool {
    ('a' <= c && c <= 'z') || ('A' <= c && c <= 'Z') || ('0' <= c && c <= '9')
}

/// ASCII whitespace as `char::is_whitespace` sees it among ASCII
/// characters, plus the Unicode spaces that std lists.
pub open spec fn is_space_char(c: char) -> bool {
    c == ' ' || c == '\t' || c == '\n' || c == '\r' || c == '\x0b' || c == '\x0c'
        || c == '\u{85}' || c == '\u{a0}' || c == '\u{1680}' || ('\u{2000}' <= c && c
        <= '\u{200a}') || c == '\u{2028}' || c == '\u{2029}' || c == '\u{202f}' || c
        == '\u{205f}' || c == '\u{3000}'
}

/// `char::is_whitespace`: the Unicode White_Space property, which is
/// exactly the short list of code points in `is_space_char`.
pub fn is_space(c: char) -> (r: bool)
    ensures
        r == is_space_char(c),
{
    c == ' ' || c == '\t' || c == '\n' || c == '\r' || c == '\x0b' || c == '\x0c' || c
        == '\u{85}' || c == '\u{a0}' || c == '\u{1680}' || ('\u{2000}' <= c && c
        <= '\u{200a}') || c == '\u{2028}' || c == '\u{2029}' || c == '\u{202f}' || c
        == '\u{205f}' || c == '\u{3000}'
}

/// The ASCII lowercase of a character; other characters are unchanged.
pub open spec fn ascii_lower_char(c: char) -> char {
    if 'A' <= c && c <= 'Z' {
        ((c as u8) + 32) as u8 as char
    } else {
        c
    }
}

/// `char::to_ascii_lowercase`.
pub fn ascii_lower(c: char) -> (r: char)
    ensures
        r == ascii_lower_char(c),
{
    if 'A' <= c && c <= 'Z' {
        ((c as u8) + 32) as char
    } else {
        c
    }
}

/// Whether a sequence contains no occurrence of a character.
pub open spec fn lacks(s: Seq<char>, c: char) -> bool {
    forall|i: int| 0 <= i < s.len() ==> s[i] != c
}

/// The part of `s` before the first `c`, or all of `s` when it has none.
pub open spec fn before_first(s: Seq<char>, c: char) -> Seq<char>
    decreases s.len(),
{
    if s.len() == 0 {
        s
    } else if s[0] == c {
        Seq::empty()
    } else {
        seq![s[0]] + before_first(s.drop_first(), c)
    }
}

/// Position of the first `c` in `s`, or `s.len()` when there is none.
pub open spec fn first_index(s: Seq<char>, c: char) -> int
    decreases s.len(),
{
    if s.len() == 0 {
        0
    } else if s[0] == c {
        0
    } else {
        1 + first_index(s.drop_first(), c)
    }
}

pub proof fn lemma_first_index(s: Seq<char>, c: char)
    ensures
        0 <= first_index(s, c) <= s.len(),
        before_first(s, c) == s.take(first_index(s, c)),
        lacks(s.take(first_index(s, c)), c),
        first_index(s, c) < s.len() ==> s[first_index(s, c)] == c,
    decreases s.len(),
{
    if s.len() > 0 && s[0] != c {
        lemma_first_index(s.drop_first(), c);
        assert(s.take(first_index(s, c)) =~= seq![s[0]] + s.drop_first().take(
            first_index(s.drop_first(), c),
        ));
    } else if s.len() > 0 {
        assert(s.take(0) =~= Seq::<char>::empty());
    }
}

/// The position of the first `c`, or the length when there is none.
pub fn find_char(s: &[char], c: char) -> (r: usize)
    ensures
        r == first_index(s@, c),
        r <= s@.len(),
{
    let mut i: usize = 0;
    while i < s.len()
        invariant
            i <= s@.len(),
            lacks(s@.take(i as int), c),
        decreases s@.len() - i,
    {
        if s[i] == c {
            proof {
                lemma_first_index_unique(s@, c, i as int);
            }
            return i;
        }
        i = i + 1;
        assert(s@.take(i as int) == s@.take((i - 1) as int).push(s@[i - 1]));
    }
    proof {
        lemma_first_index_unique(s@, c, i as int);
    }
    i
}

/// The first index is the unique position before which `c` does not occur
/// and at which `c` occurs (or the end).
pub proof fn lemma_first_index_unique(s: Seq<char>, c: char, k: int)
    requires
        0 <= k <= s.len(),
        lacks(s.take(k), c),
        k == s.len() || s[k] == c,
    ensures
        first_index(s, c) == k,
    decreases s.len(),
{
    if s.len() > 0 && k > 0 {
        assert(s[0] == s.take(k)[0]);
        assert(s.drop_first().take(k - 1) =~= s.take(k).drop_first());
        lemma_first_index_unique(s.drop_first(), c, k - 1);
    }
}

/// Position just after the last `c`, or 0 when there is none; the part
/// of `s` after that position is what `rsplit(c).next()` yields.
pub open spec fn after_last_index(s: Seq<char>, c: char) -> int
    decreases s.len(),
{
    if s.len() == 0 {
        0
    } else if s.last() == c {
        s.len() as int
    } else {
        after_last_index(s.drop_last(), c)
    }
}

pub proof fn lemma_after_last_index(s: Seq<char>, c: char)
    ensures
        0 <= after_last_index(s, c) <= s.len(),
        lacks(s.skip(after_last_index(s, c)), c),
        after_last_index(s, c) > 0 ==> s[after_last_index(s, c) - 1] == c,
    decreases s.len(),
{
    if s.len() > 0 && s.last() != c {
        lemma_after_last_index(s.drop_last(), c);
        let k = after_last_index(s, c);
        assert forall|i: int| 0 <= i < s.skip(k).len() implies s.skip(k)[i] != c by {
            if k + i < s.len() - 1 {
                assert(s.skip(k)[i] == s.drop_last().skip(k)[i]);
            }
        }
    }
}

/// The position just after the last `c`, or 0 when there is none.
pub fn rfind_after(s: &[char], c: char) -> (r: usize)
    ensures
        r == after_last_index(s@, c),
        r <= s@.len(),
{
    let mut i: usize = s.len();
    assert(s@.take(i as int) =~= s@);
    while i > 0
        invariant
            i <= s@.len(),
            after_last_index(s@, c) == after_last_index(s@.take(i as int), c),
        decreases i,
    {
        if s[i - 1] == c {
            assert(s@.take(i as int).last() == c);
            return i;
        }
        assert(s@.take(i as int).drop_last() =~= s@.take((i - 1) as int));
        i = i - 1;
    }
    i
}

/// Whether `needle` occurs in `hay` at position `at`.
pub open spec fn occurs_at(hay: Seq<char>, needle: Seq<char>, at: int) -> bool {
    0 <= at && at + needle.len() <= hay.len() && hay.subrange(at, at + needle.len()) == needle
}

/// Whether `needle` occurs anywhere in `hay`.
pub open spec fn contains_seq(hay: Seq<char>, needle: Seq<char>) -> bool {
    exists|at: int| occurs_at(hay, needle, at)
}

/// Substring search over characters.
pub fn contains_chars(hay: &[char], needle: &[char]) -> (r: bool)
    ensures
        r == contains_seq(hay@, needle@),
{
    if needle.len() > hay.len() {
        assert forall|at: int| !occurs_at(hay@, needle@, at) by {}
        return false;
    }
    if needle.len() == 0 {
        assert(hay@.subrange(0, 0) =~= needle@);
        assert(occurs_at(hay@, needle@, 0));
        return true;
    }
    let last = hay.len() - needle.len();
    let mut at: usize = 0;
    while at <= last
        invariant
            last == hay@.len() - needle@.len(),
            needle@.len() > 0,
            hay@.len() == hay.len(),
            at <= last + 1,
            forall|k: int| 0 <= k < at ==> !occurs_at(hay@, needle@, k),
        decreases last + 1 - at,
    {
        let mut j: usize = 0;
        let mut same = true;
        while j < needle.len()
            invariant
                at <= last,
                last == hay@.len() - needle@.len(),
                hay@.len() == hay.len(),
                j <= needle@.len(),
                same ==> forall|m: int| 0 <= m < j ==> hay@[at + m] == needle@[m],
                !same ==> !occurs_at(hay@, needle@, at as int),
            decreases needle@.len() - j,
        {
            if hay[at + j] != needle[j] {
                same = false;
                assert(hay@.subrange(at as int, at + needle@.len())[j as int] == hay@[at + j]);
            }
            j = j + 1;
        }
        if same {
            assert(hay@.subrange(at as int, at + needle@.len()) =~= needle@);
            assert(occurs_at(hay@, needle@, at as int));
            return true;
        }
        at = at + 1;
    }
    assert forall|k: int| !occurs_at(hay@, needle@, k) by {
        if 0 <= k < at {
        }
    }
    false
}

/// Whether `prefix` starts `s`.
pub fn starts_with_chars(s: &[char], prefix: &[char]) -> (r: bool)
    ensures
        r == prefix@.is_prefix_of(s@),
{
    if prefix.len() > s.len() {
        return false;
    }
    let mut i: usize = 0;
    while i < prefix.len()
        invariant
            prefix@.len() <= s@.len(),
            i <= prefix@.len(),
            forall|j: int| 0 <= j < i ==> prefix@[j] == s@[j],
        decreases prefix@.len() - i,
    {
        if prefix[i] != s[i] {
            return false;
        }
        i = i + 1;
    }
    true
}

/// Whether `suffix` ends `s`.
pub fn ends_with_chars(s: &[char], suffix: &[char]) -> (r: bool)
    ensures
        r == suffix@.is_suffix_of(s@),
{
    if suffix.len() > s.len() {
        return false;
    }
    let off = s.len() - suffix.len();
    let mut i: usize = 0;
    while i < suffix.len()
        invariant
            off == s@.len() - suffix@.len(),
            s@.len() == s.len(),
            i <= suffix@.len(),
            forall|j: int| 0 <= j < i ==> suffix@[j] == s@[off + j],
        decreases suffix@.len() - i,
    {
        if suffix[i] != s[off + i] {
            return false;
        }
        i = i + 1;
    }
    true
}

/// A copy of `s[from..to]`.
pub fn slice_chars(s: &[char], from: usize, to: usize) -> (r: Vec<char>)
    requires
        from <= to <= s@.len(),
    ensures
        r@ == s@.subrange(from as int, to as int),
{
    let mut out: Vec<char> = Vec::new();
    let mut i = from;
    while i < to
        invariant
            from <= i <= to,
            to <= s@.len(),
            out@ == s@.subrange(from as int, i as int),
        decreases to - i,
    {
        out.push(s[i]);
        i = i + 1;
        assert(s@.subrange(from as int, i as int) == s@.subrange(from as int, (i - 1) as int).push(
            s@[i - 1],
        ));
    }
    out
}

/// A vector holding one character.
pub fn one_char(c: char) -> (r: Vec<char>)
    ensures
        r@ == seq![c],
{
    let mut v = Vec::new();
    v.push(c);
    assert(v@ =~= seq![c]);
    v
}

/// A copy of a character slice.
pub fn copy_chars(s: &[char]) -> (r: Vec<char>)
    ensures
        r@ == s@,
{
    let r = slice_chars(s, 0, s.len());
    assert(s@.subrange(0, s@.len() as int) =~= s@);
    r
}

/// Leading and trailing characters removed while they satisfy `is_space_char`:
/// this is `str::trim`.
pub open spec fn trim_spec(s: Seq<char>) -> Seq<char> {
    s.subrange(trim_start_index(s), trim_end_index(s))
}

/// Number of leading whitespace characters, capped so that the start never
/// passes the end.
pub open spec fn trim_start_index(s: Seq<char>) -> int
    decreases s.len(),
{
    if s.len() == 0 {
        0
    } else if is_space_char(s[0]) {
        1 + trim_start_index(s.drop_first())
    } else {
        0
    }
}

/// Length of `s` without its trailing whitespace, but never before the start
/// index.
pub open spec fn trim_end_index(s: Seq<char>) -> int {
    let st = trim_start_index(s);
    st + trailing_kept(s.skip(st))
}

/// Length of `s` once trailing whitespace is dropped.
pub open spec fn trailing_kept(s: Seq<char>) -> int
    decreases s.len(),
{
    if s.len() == 0 {
        0
    } else if is_space_char(s.last()) {
        trailing_kept(s.drop_last())
    } else {
        s.len() as int
    }
}

pub proof fn lemma_trim_start_index(s: Seq<char>)
    ensures
        0 <= trim_start_index(s) <= s.len(),
        forall|i: int| 0 <= i < trim_start_index(s) ==> is_space_char(#[trigger] s[i]),
        trim_start_index(s) < s.len() ==> !is_space_char(s[trim_start_index(s)]),
    decreases s.len(),
{
    if s.len() > 0 && is_space_char(s[0]) {
        lemma_trim_start_index(s.drop_first());
        assert forall|i: int| 0 <= i < trim_start_index(s) implies is_space_char(#[trigger] s[i]) by {
            if i > 0 {
                assert(s[i] == s.drop_first()[i - 1]);
            }
        }
    }
}

pub proof fn lemma_trailing_kept(s: Seq<char>)
    ensures
        0 <= trailing_kept(s) <= s.len(),
        forall|i: int| trailing_kept(s) <= i < s.len() ==> is_space_char(#[trigger] s[i]),
        trailing_kept(s) > 0 ==> !is_space_char(s[trailing_kept(s) - 1]),
    decreases s.len(),
{
    if s.len() > 0 && is_space_char(s.last()) {
        lemma_trailing_kept(s.drop_last());
        assert forall|i: int| trailing_kept(s) <= i < s.len() implies is_space_char(#[trigger] s[i]) by {
            if i < s.len() - 1 {
                assert(s[i] == s.drop_last()[i]);
            }
        }
    }
}

/// `str::trim` over a character slice.
pub fn trim_chars(s: &[char]) -> (r: Vec<char>)
    ensures
        r@ == trim_spec(s@),
{
    proof {
        lemma_trim_start_index(s@);
    }
    let mut start: usize = 0;
    while start < s.len() && is_space(s[start])
        invariant
            start <= s@.len(),
            forall|i: int| 0 <= i < start ==> is_space_char(#[trigger] s@[i]),
        decreases s@.len() - start,
    {
        start = start + 1;
    }
    proof {
        lemma_trim_start_unique(s@, start as int);
        lemma_trailing_kept(s@.skip(start as int));
    }
    let mut end: usize = s.len();
    assert(s@.skip(start as int).take(end - start) =~= s@.skip(start as int));
    while end > start && is_space(s[end - 1])
        invariant
            start <= end <= s@.len(),
            start == trim_start_index(s@),
            trailing_kept(s@.skip(start as int)) == trailing_kept(s@.skip(start as int).take(end - start)),
        decreases end,
    {
        assert(s@.skip(start as int).take(end - start).last() == s@[end - 1]);
        assert(s@.skip(start as int).take(end - start).drop_last() =~= s@.skip(start as int).take(
            end - 1 - start,
        ));
        end = end - 1;
    }
    proof {
        if end > start {
            assert(s@.skip(start as int).take(end - start).last() == s@[end - 1]);
        }
        assert(s@.skip(start as int).take(end - start).len() == end - start);
    }
    slice_chars(s, start, end)
}

pub proof fn lemma_trim_start_unique(s: Seq<char>, k: int)
    requires
        0 <= k <= s.len(),
        forall|i: int| 0 <= i < k ==> is_space_char(#[trigger] s[i]),
        k == s.len() || !is_space_char(s[k]),
    ensures
        trim_start_index(s) == k,
    decreases s.len(),
{
    if s.len() > 0 && k > 0 {
        assert(is_space_char(s[0]));
        assert forall|i: int| 0 <= i < k - 1 implies is_space_char(#[trigger] s.drop_first()[i]) by {
            assert(s.drop_first()[i] == s[i + 1]);
        }
        lemma_trim_start_unique(s.drop_first(), k - 1);
    }
}

} // verus!

verus! {

/// Lexicographic order of character sequences by code point, which is
/// also the byte order of their UTF-8 encodings (the order of `String`).
pub open spec fn chars_lt(a: Seq<char>, b: Seq<char>) -> bool
    decreases a.len(),
{
    if a.len() == 0 {
        b.len() > 0
    } else if b.len() == 0 {
        false
    } else if a[0] < b[0] {
        true
    } else if a[0] == b[0] {
        chars_lt(a.drop_first(), b.drop_first())
    } else {
        false
    }
}

pub proof fn lemma_chars_lt_irreflexive_asymmetric(a: Seq<char>, b: Seq<char>)
    ensures
        !chars_lt(a, a),
        chars_lt(a, b) ==> !chars_lt(b, a),
    decreases a.len(),
{
    if a.len() > 0 {
        lemma_chars_lt_irreflexive_asymmetric(a.drop_first(), a.drop_first());
        if b.len() > 0 {
            lemma_chars_lt_irreflexive_asymmetric(a.drop_first(), b.drop_first());
        }
    }
}

pub proof fn lemma_chars_lt_transitive(a: Seq<char>, b: Seq<char>, c: Seq<char>)
    requires
        chars_lt(a, b),
        chars_lt(b, c),
    ensures
        chars_lt(a, c),
    decreases a.len(),
{
    if a.len() > 0 && b.len() > 0 && c.len() > 0 && a[0] == b[0] && b[0] == c[0] {
        lemma_chars_lt_transitive(a.drop_first(), b.drop_first(), c.drop_first());
    }
}

/// Of two different sequences one is before the other.
pub proof fn lemma_chars_lt_total(a: Seq<char>, b: Seq<char>)
    ensures
        !chars_lt(a, b) && !chars_lt(b, a) ==> a == b,
    decreases a.len(),
{
    if a.len() > 0 && b.len() > 0 && a[0] == b[0] {
        lemma_chars_lt_total(a.drop_first(), b.drop_first());
        if a.drop_first() == b.drop_first() {
            assert(a =~= seq![a[0]] + a.drop_first());
            assert(b =~= seq![b[0]] + b.drop_first());
        }
    } else if a.len() == 0 && b.len() == 0 {
        assert(a =~= b);
    }
}

/// Three-way comparison: negative, zero or positive as `a` is before,
/// equal to or after `b`.
pub fn compare_chars(a: &[char], b: &[char]) -> (r: i8)
    ensures
        r < 0 ==> chars_lt(a@, b@),
        r == 0 ==> a@ == b@,
        r > 0 ==> chars_lt(b@, a@),
{
    let mut i: usize = 0;
    while i < a.len() && i < b.len()
        invariant
            i <= a@.len(),
            i <= b@.len(),
            a@.take(i as int) == b@.take(i as int),
        decreases a@.len() - i,
    {
        if a[i] < b[i] {
            proof {
                lemma_chars_lt_common_prefix(a@, b@, i as int);
            }
            return -1;
        }
        if b[i] < a[i] {
            proof {
                lemma_chars_lt_common_prefix(b@, a@, i as int);
            }
            return 1;
        }
        assert(a[i as int] == b[i as int]);
        assert(a@.take(i + 1) == a@.take(i as int).push(a@[i as int]));
        assert(b@.take(i + 1) == b@.take(i as int).push(b@[i as int]));
        i = i + 1;
    }
    proof {
        lemma_chars_lt_common_prefix(a@, b@, i as int);
        lemma_chars_lt_common_prefix(b@, a@, i as int);
    }
    if a.len() == b.len() {
        assert(a@ =~= a@.take(i as int));
        assert(b@ =~= b@.take(i as int));
        0
    } else if a.len() < b.len() {
        -1
    } else {
        1
    }
}

/// After a common prefix of length `i`, the order is decided by what
/// follows.
pub proof fn lemma_chars_lt_common_prefix(a: Seq<char>, b: Seq<char>, i: int)
    requires
        0 <= i <= a.len(),
        i <= b.len(),
        a.take(i) == b.take(i),
    ensures
        (i < a.len() && i < b.len() && a[i] < b[i]) ==> chars_lt(a, b),
        (i == a.len() && i < b.len()) ==> chars_lt(a, b),
    decreases i,
{
    if i > 0 {
        assert(a[0] == a.take(i)[0]);
        assert(b[0] == b.take(i)[0]);
        assert(a.drop_first().take(i - 1) =~= a.take(i).drop_first());
        assert(b.drop_first().take(i - 1) =~= b.take(i).drop_first());
        lemma_chars_lt_common_prefix(a.drop_first(), b.drop_first(), i - 1);
    }
}

} // verus!
