//! Text rules shared by every module: name normalisation, terminal-safe
//! display, query relevance, package base names, shell quoting, path
//! containment and size display.
use crate::text::{
    after_last_index, chars_eq, chars_of, copy_chars, one_char, contains_chars, contains_seq, find_char, first_index,
    is_ascii_alnum, is_alphanumeric, is_control, is_control_char, lemma_first_index, lowercase,
    nfkd, nfkd_of, push_char, push_chars, push_str, rfind_after, slice_chars, string_of,
    unicode_alphanumeric, unicode_lowercase,
};
use vstd::prelude::*;

verus! {

// ---------------------------------------------------------------------------
// Normalisation
// ---------------------------------------------------------------------------

/// The lowercase mapping of the alphanumeric characters of `cs`, in order;
/// all other characters are dropped.
pub open spec fn keep_lower(cs: Seq<char>) -> Seq<char>
    decreases cs.len(),
{
    if cs.len() == 0 {
        Seq::empty()
    } else {
        keep_lower(cs.drop_last()) + (if unicode_alphanumeric(cs.last()) {
            unicode_lowercase(cs.last())
        } else {
            Seq::empty()
        })
    }
}

/// The normal form used to compare names: compatibility-decompose, keep
/// the alphanumeric characters, lowercase them.
pub open spec fn norm_spec(s: Seq<char>) -> Seq<char> {
    keep_lower(nfkd_of(s))
}

/// Case- and diacritic-insensitive normal form of a name.
pub fn norm(value: &str) -> (r: String)
    ensures
        r@ == norm_spec(value@),
{
    let decomposed = nfkd(value);
    let cs = chars_of(decomposed.as_str());
    let mut out = String::new();
    let mut i: usize = 0;
    while i < cs.len()
        invariant
            i <= cs@.len(),
            out@ == keep_lower(cs@.take(i as int)),
        decreases cs@.len() - i,
    {
        let c = cs[i];
        if is_alphanumeric(c) {
            let lower = lowercase(c);
            push_chars(&mut out, &lower);
        }
        i = i + 1;
        assert(cs@.take(i as int).drop_last() =~= cs@.take((i - 1) as int));
    }
    assert(cs@.take(cs@.len() as int) =~= cs@);
    out
}

// ---------------------------------------------------------------------------
// Terminal-safe display
// ---------------------------------------------------------------------------

/// A character as it may be shown on a terminal: control characters
/// (escape and delete among them) become `?`.
pub open spec fn sanitize_char(c: char) -> char {
    if !is_control_char(c) && c != '\u{1b}' && c != '\u{7f}' {
        c
    } else {
        '?'
    }
}

pub open spec fn sanitize_spec(s: Seq<char>) -> Seq<char> {
    s.map_values(|c: char| sanitize_char(c))
}

/// Replaces terminal control characters so that untrusted text cannot
/// drive the terminal.
pub fn sanitize(value: &str) -> (r: String)
    ensures
        r@ == sanitize_spec(value@),
{
    let cs = chars_of(value);
    let mut out = String::new();
    let mut i: usize = 0;
    while i < cs.len()
        invariant
            i <= cs@.len(),
            out@ == sanitize_spec(cs@.take(i as int)),
        decreases cs@.len() - i,
    {
        let c = cs[i];
        if !is_control(c) && c != '\u{1b}' && c != '\u{7f}' {
            push_char(&mut out, c);
        } else {
            push_char(&mut out, '?');
        }
        i = i + 1;
        assert(sanitize_spec(cs@.take(i as int)) =~= sanitize_spec(cs@.take((i - 1) as int)).push(
            sanitize_char(cs@[i - 1]),
        ));
    }
    assert(cs@.take(cs@.len() as int) =~= cs@);
    out
}

/// Sanitised text holds no control character, and sanitising it again
/// changes nothing.
pub proof fn sanitize_is_terminal_safe(s: Seq<char>)
    ensures
        forall|i: int| 0 <= i < sanitize_spec(s).len() ==> !is_control_char(#[trigger] sanitize_spec(s)[i]),
        sanitize_spec(s).len() == s.len(),
        sanitize_spec(sanitize_spec(s)) == sanitize_spec(s),
{
    assert(sanitize_spec(sanitize_spec(s)) =~= sanitize_spec(s));
}

// ---------------------------------------------------------------------------
// Query relevance
// ---------------------------------------------------------------------------

/// The part of a value after its last `.`, the whole value when it has none.
pub open spec fn last_component(v: Seq<char>) -> Seq<char> {
    v.skip(after_last_index(v, '.'))
}

/// Whether one value matches an already normalised, non-empty needle:
/// needles shorter than three bytes must equal the whole normalised value
/// or its last dotted component; longer ones may occur anywhere in it.
pub open spec fn relevant_one(needle: Seq<char>, v: Seq<char>) -> bool {
    if vstd::utf8::encode_utf8(needle).len() < 3 {
        needle == norm_spec(v) || needle == norm_spec(last_component(v))
    } else {
        contains_seq(norm_spec(v), needle)
    }
}

pub open spec fn relevant_spec(query: Seq<char>, values: Seq<Seq<char>>) -> bool {
    let needle = norm_spec(query);
    needle.len() > 0 && exists|i: int| 0 <= i < values.len() && relevant_one(needle, #[trigger] values[i])
}

/// Search is a substring search for all but very short queries: a query
/// whose normalised form takes at least three bytes matches a value
/// exactly when it occurs somewhere in the value's normalised form (so a
/// value whose normalised form is any text, the query, and any text,
/// matches); a shorter query matches exactly when it is the whole
/// normalised value or the normalised part after its last dot. Several
/// values match when one of them does.
pub proof fn search_is_substring_search(query: Seq<char>, v: Seq<char>, values: Seq<Seq<char>>)
    ensures
        vstd::utf8::encode_utf8(norm_spec(query)).len() >= 3 ==> (relevant_spec(query, seq![v])
            <==> exists|at: int|
            0 <= at && at + norm_spec(query).len() <= norm_spec(v).len() && #[trigger] norm_spec(
                v,
            ).subrange(at, at + norm_spec(query).len()) == norm_spec(query)),
        vstd::utf8::encode_utf8(norm_spec(query)).len() >= 3 ==> forall|p: Seq<char>, s: Seq<char>|
            norm_spec(v) == p + norm_spec(query) + s ==> relevant_spec(query, seq![v]),
        vstd::utf8::encode_utf8(norm_spec(query)).len() < 3 ==> (relevant_spec(query, seq![v]) <==> (
        norm_spec(query).len() > 0 && (norm_spec(query) == norm_spec(v) || norm_spec(query)
            == norm_spec(v.skip(after_last_index(v, '.')))))),
        relevant_spec(query, values) <==> exists|i: int|
            0 <= i < values.len() && relevant_spec(query, seq![#[trigger] values[i]]),
{
    let n = norm_spec(query);
    let h = norm_spec(v);
    assert(seq![v][0] == v);
    if vstd::utf8::encode_utf8(n).len() >= 3 {
        assert(n.len() > 0) by {
            if n.len() == 0 {
                assert(n =~= Seq::<char>::empty());
                assert(vstd::utf8::encode_utf8(n) =~= Seq::<u8>::empty());
            }
        }
        if relevant_spec(query, seq![v]) {
            assert(relevant_one(n, v));
            let at = choose|at: int| crate::text::occurs_at(h, n, at);
            assert(h.subrange(at, at + n.len()) == n);
        }
        if exists|at: int|
            0 <= at && at + n.len() <= h.len() && #[trigger] h.subrange(at, at + n.len()) == n {
            let at = choose|at: int|
                0 <= at && at + n.len() <= h.len() && #[trigger] h.subrange(at, at + n.len()) == n;
            assert(crate::text::occurs_at(h, n, at));
            assert(relevant_one(n, seq![v][0]));
        }
        assert forall|p: Seq<char>, s: Seq<char>| h == p + n + s implies relevant_spec(query, seq![v]) by {
            let at = p.len() as int;
            assert(h.subrange(at, at + n.len()) =~= n);
            assert(crate::text::occurs_at(h, n, at));
            assert(relevant_one(n, seq![v][0]));
        }
    }
    assert forall|i: int| 0 <= i < values.len() implies (relevant_spec(query, seq![#[trigger] values[i]])
        <==> (n.len() > 0 && relevant_one(n, values[i]))) by {
        assert(seq![values[i]][0] == values[i]);
    }
}

pub open spec fn views(values: Seq<&str>) -> Seq<Seq<char>> {
    values.map_values(|v: &str| v@)
}

proof fn lemma_scalar_width(c: char)
    ensures
        1 <= vstd::utf8::encode_scalar(c as u32).len() <= 4,
        (c as u32) < 0x80 ==> vstd::utf8::encode_scalar(c as u32).len() == 1,
        0x80 <= (c as u32) < 0x800 ==> vstd::utf8::encode_scalar(c as u32).len() == 2,
        0x800 <= (c as u32) ==> vstd::utf8::encode_scalar(c as u32).len() >= 3,
{
    vstd::utf8::char_is_scalar(c);
}

/// Whether the UTF-8 encoding of the characters takes fewer than three bytes.
pub(crate) fn utf8_shorter_than_three(cs: &[char]) -> (r: bool)
    ensures
        r == (vstd::utf8::encode_utf8(cs@).len() < 3),
{
    if cs.len() == 0 {
        return true;
    }
    proof {
        lemma_scalar_width(cs@[0]);
        assert(vstd::utf8::encode_utf8(cs@) == vstd::utf8::encode_scalar(cs@[0] as u32)
            + vstd::utf8::encode_utf8(cs@.drop_first()));
    }
    let w0: usize = if (cs[0] as u32) < 0x80 {
        1
    } else if (cs[0] as u32) < 0x800 {
        2
    } else {
        3
    };
    if w0 >= 3 {
        return false;
    }
    if cs.len() == 1 {
        assert(cs@.drop_first().len() == 0);
        return true;
    }
    let ghost rest = cs@.drop_first();
    proof {
        lemma_scalar_width(rest[0]);
        assert(vstd::utf8::encode_utf8(rest) == vstd::utf8::encode_scalar(rest[0] as u32)
            + vstd::utf8::encode_utf8(rest.drop_first()));
    }
    let w1: usize = if (cs[1] as u32) < 0x80 {
        1
    } else {
        2
    };
    if w0 + w1 >= 3 {
        return false;
    }
    if cs.len() == 2 {
        assert(rest.drop_first().len() == 0);
        return true;
    }
    proof {
        let rest2 = rest.drop_first();
        lemma_scalar_width(rest2[0]);
        assert(vstd::utf8::encode_utf8(rest2) == vstd::utf8::encode_scalar(rest2[0] as u32)
            + vstd::utf8::encode_utf8(rest2.drop_first()));
    }
    false
}

/// Whether any of the values is a plausible match for the query.
pub fn relevant(query: &str, values: &[&str]) -> (r: bool)
    ensures
        r == relevant_spec(query@, views(values@)),
{
    let needle_string = norm(query);
    let needle = chars_of(needle_string.as_str());
    if needle.len() == 0 {
        return false;
    }
    let short = utf8_shorter_than_three(&needle);
    let mut i: usize = 0;
    while i < values.len()
        invariant
            i <= values@.len(),
            needle@ == norm_spec(query@),
            needle@.len() > 0,
            short == (vstd::utf8::encode_utf8(needle@).len() < 3),
            forall|j: int| 0 <= j < i ==> !relevant_one(needle@, #[trigger] views(values@)[j]),
        decreases values@.len() - i,
    {
        let value = values[i];
        let normalized_string = norm(value);
        let normalized = chars_of(normalized_string.as_str());
        let hit = if short {
            if chars_eq(&needle, &normalized) {
                true
            } else {
                let cs = chars_of(value);
                let start = rfind_after(&cs, '.');
                let tail_chars = slice_chars(&cs, start, cs.len());
                let tail = string_of(&tail_chars);
                let tail_norm = norm(tail.as_str());
                let tail_cs = chars_of(tail_norm.as_str());
                chars_eq(&needle, &tail_cs)
            }
        } else {
            contains_chars(&normalized, &needle)
        };
        assert(views(values@)[i as int] == value@);
        if hit {
            return true;
        }
        i = i + 1;
    }
    false
}

// ---------------------------------------------------------------------------
// Package base names
// ---------------------------------------------------------------------------

/// The RPM architecture suffixes that `package_base` strips.
pub open spec fn is_arch(s: Seq<char>) -> bool {
    s == "aarch64"@ || s == "alpha"@ || s == "armv7hl"@ || s == "armv7hnl"@ || s == "i386"@
        || s == "i486"@ || s == "i586"@ || s == "i686"@ || s == "ia64"@ || s == "noarch"@ || s
        == "ppc"@ || s == "ppc64"@ || s == "ppc64le"@ || s == "riscv64"@ || s == "s390"@ || s
        == "s390x"@ || s == "sparc"@ || s == "src"@ || s == "x86_64"@
}

fn arch_matches(s: &[char]) -> (r: bool)
    ensures
        r == is_arch(s@),
{
    let arches: [&str; 19] = [
        "aarch64",
        "alpha",
        "armv7hl",
        "armv7hnl",
        "i386",
        "i486",
        "i586",
        "i686",
        "ia64",
        "noarch",
        "ppc",
        "ppc64",
        "ppc64le",
        "riscv64",
        "s390",
        "s390x",
        "sparc",
        "src",
        "x86_64",
    ];
    let mut i: usize = 0;
    while i < 19
        invariant
            i <= 19,
            arches@ == seq![
                "aarch64",
                "alpha",
                "armv7hl",
                "armv7hnl",
                "i386",
                "i486",
                "i586",
                "i686",
                "ia64",
                "noarch",
                "ppc",
                "ppc64",
                "ppc64le",
                "riscv64",
                "s390",
                "s390x",
                "sparc",
                "src",
                "x86_64",
            ],
            forall|j: int| 0 <= j < i ==> s@ != (#[trigger] arches@[j])@,
        decreases 19 - i,
    {
        let a = chars_of(arches[i]);
        if chars_eq(s, &a) {
            return true;
        }
        i = i + 1;
    }
    assert(!is_arch(s@)) by {
        assert(s@ != arches@[0]@);
        assert(s@ != arches@[1]@);
        assert(s@ != arches@[2]@);
        assert(s@ != arches@[3]@);
        assert(s@ != arches@[4]@);
        assert(s@ != arches@[5]@);
        assert(s@ != arches@[6]@);
        assert(s@ != arches@[7]@);
        assert(s@ != arches@[8]@);
        assert(s@ != arches@[9]@);
        assert(s@ != arches@[10]@);
        assert(s@ != arches@[11]@);
        assert(s@ != arches@[12]@);
        assert(s@ != arches@[13]@);
        assert(s@ != arches@[14]@);
        assert(s@ != arches@[15]@);
        assert(s@ != arches@[16]@);
        assert(s@ != arches@[17]@);
        assert(s@ != arches@[18]@);
    }
    false
}

/// The part of a name before its first `:`, without a trailing
/// `.architecture` when that suffix is a known RPM architecture.
pub open spec fn package_base_spec(n: Seq<char>) -> Seq<char> {
    let base = n.take(first_index(n, ':'));
    let d = after_last_index(base, '.');
    if d > 0 && is_arch(base.skip(d)) {
        base.take(d - 1)
    } else {
        base
    }
}

/// Package name without an epoch-like `:` suffix or RPM architecture.
pub fn package_base(name: &str) -> (r: String)
    ensures
        r@ == package_base_spec(name@),
{
    let cs = chars_of(name);
    let colon = find_char(&cs, ':');
    proof {
        lemma_first_index(cs@, ':');
    }
    let base = slice_chars(&cs, 0, colon);
    let dot = rfind_after(&base, '.');
    if dot > 0 {
        let suffix = slice_chars(&base, dot, base.len());
        if arch_matches(&suffix) {
            let prefix = slice_chars(&base, 0, dot - 1);
            return string_of(&prefix);
        }
    }
    string_of(&base)
}

// ---------------------------------------------------------------------------
// Shell display
// ---------------------------------------------------------------------------

/// Characters that a POSIX shell reads literally outside quotes.
pub open spec fn shell_safe_char(c: char) -> bool {
    is_ascii_alnum(c) || c == '@' || c == '%' || c == '_' || c == '+' || c == '=' || c == ':'
        || c == ',' || c == '.' || c == '/' || c == '-'
}

pub open spec fn all_shell_safe(s: Seq<char>) -> bool {
    forall|i: int| 0 <= i < s.len() ==> shell_safe_char(#[trigger] s[i])
}

/// A character inside single quotes; a quote closes the quotes, emits an
/// escaped quote and reopens them.
pub open spec fn quote_piece(c: char) -> Seq<char> {
    if c == '\'' {
        seq!['\'', '\\', '\'', '\'']
    } else {
        seq![c]
    }
}

pub open spec fn quote_body(s: Seq<char>) -> Seq<char>
    decreases s.len(),
{
    if s.len() == 0 {
        Seq::empty()
    } else {
        quote_piece(s[0]) + quote_body(s.drop_first())
    }
}

pub open spec fn shell_quote_spec(s: Seq<char>) -> Seq<char> {
    if all_shell_safe(s) {
        s
    } else {
        seq!['\''] + quote_body(s) + seq!['\'']
    }
}

pub proof fn lemma_quote_body_push(s: Seq<char>, c: char)
    ensures
        quote_body(s.push(c)) == quote_body(s) + quote_piece(c),
    decreases s.len(),
{
    if s.len() == 0 {
        assert(s.push(c).drop_first() =~= Seq::<char>::empty());
        assert(quote_body(s.push(c).drop_first()) == Seq::<char>::empty());
        assert(quote_body(s.push(c)) =~= quote_piece(c));
    } else {
        assert(s.push(c).drop_first() =~= s.drop_first().push(c));
        lemma_quote_body_push(s.drop_first(), c);
        assert(quote_body(s.push(c)) =~= quote_body(s) + quote_piece(c));
    }
}

fn shell_safe(c: char) -> (r: bool)
    ensures
        r == shell_safe_char(c),
{
    ('a' <= c && c <= 'z') || ('A' <= c && c <= 'Z') || ('0' <= c && c <= '9') || c == '@' || c
        == '%' || c == '_' || c == '+' || c == '=' || c == ':' || c == ',' || c == '.' || c == '/'
        || c == '-'
}

/// Quotes a value for display as one shell word; plain values stay as
/// they are.
pub fn shell_quote(value: &str) -> (r: String)
    ensures
        r@ == shell_quote_spec(value@),
{
    let cs = chars_of(value);
    let mut i: usize = 0;
    let mut plain = true;
    while i < cs.len()
        invariant
            i <= cs@.len(),
            plain == all_shell_safe(cs@.take(i as int)),
        decreases cs@.len() - i,
    {
        let ok = shell_safe(cs[i]);
        proof {
            let a = cs@.take(i as int);
            let b = cs@.take(i + 1);
            assert(b =~= a.push(cs@[i as int]));
            if ok && plain {
                assert forall|k: int| 0 <= k < b.len() implies shell_safe_char(#[trigger] b[k]) by {
                    if k < a.len() {
                        assert(b[k] == a[k]);
                    }
                }
            }
            if !plain {
                let k = choose|k: int| 0 <= k < a.len() && !shell_safe_char(#[trigger] a[k]);
                assert(b[k] == a[k]);
            }
            if !ok {
                assert(b[i as int] == cs@[i as int]);
            }
        }
        if !ok {
            plain = false;
        }
        i = i + 1;
    }
    assert(cs@.take(cs@.len() as int) =~= cs@);
    if plain {
        return string_of(&cs);
    }
    let mut out = String::new();
    push_char(&mut out, '\'');
    let mut j: usize = 0;
    while j < cs.len()
        invariant
            j <= cs@.len(),
            out@ == seq!['\''] + quote_body(cs@.take(j as int)),
        decreases cs@.len() - j,
    {
        let c = cs[j];
        if c == '\'' {
            push_char(&mut out, '\'');
            push_char(&mut out, '\\');
            push_char(&mut out, '\'');
            push_char(&mut out, '\'');
        } else {
            push_char(&mut out, c);
        }
        proof {
            lemma_quote_body_push(cs@.take(j as int), c);
            assert(cs@.take(j + 1) =~= cs@.take(j as int).push(c));
        }
        j = j + 1;
        assert(out@ =~= seq!['\''] + quote_body(cs@.take(j as int)));
    }
    push_char(&mut out, '\'');
    out
}

/// How a POSIX shell reads one word made of literal characters,
/// single-quoted runs and backslash escapes; `None` when the word is
/// unterminated or holds an unquoted character that the shell would
/// interpret.
pub open spec fn shell_word(s: Seq<char>, quoted: bool) -> Option<Seq<char>>
    decreases s.len(),
{
    if s.len() == 0 {
        if quoted {
            None
        } else {
            Some(Seq::empty())
        }
    } else if quoted {
        if s[0] == '\'' {
            shell_word(s.drop_first(), false)
        } else {
            match shell_word(s.drop_first(), true) {
                Some(rest) => Some(seq![s[0]] + rest),
                None => None,
            }
        }
    } else if s[0] == '\'' {
        shell_word(s.drop_first(), true)
    } else if s[0] == '\\' {
        if s.len() < 2 {
            None
        } else {
            match shell_word(s.skip(2), false) {
                Some(rest) => Some(seq![s[1]] + rest),
                None => None,
            }
        }
    } else if shell_safe_char(s[0]) {
        match shell_word(s.drop_first(), false) {
            Some(rest) => Some(seq![s[0]] + rest),
            None => None,
        }
    } else {
        None
    }
}

proof fn lemma_plain_word(s: Seq<char>)
    requires
        all_shell_safe(s),
    ensures
        shell_word(s, false) == Some(s),
    decreases s.len(),
{
    if s.len() > 0 {
        assert(shell_safe_char(s[0]));
        lemma_plain_word(s.drop_first());
        assert(seq![s[0]] + s.drop_first() =~= s);
    }
}

proof fn lemma_quoted_body(s: Seq<char>)
    ensures
        shell_word(quote_body(s) + seq!['\''], true) == Some(s),
    decreases s.len(),
{
    if s.len() == 0 {
        assert(quote_body(s) + seq!['\''] =~= seq!['\'']);
        assert(seq!['\''].drop_first() =~= Seq::<char>::empty());
        assert(s =~= Seq::<char>::empty());
        assert(shell_word(seq!['\''], true) == shell_word(Seq::<char>::empty(), false));
    } else {
        let rest = quote_body(s.drop_first()) + seq!['\''];
        lemma_quoted_body(s.drop_first());
        let w = quote_body(s) + seq!['\''];
        assert(w =~= quote_piece(s[0]) + rest);
        assert(seq![s[0]] + s.drop_first() =~= s);
        if s[0] == '\'' {
            let w1 = w.drop_first();
            assert(w1 =~= seq!['\\', '\'', '\''] + rest);
            let w3 = w1.skip(2);
            assert(w3 =~= seq!['\''] + rest);
            assert(w3.drop_first() =~= rest);
            assert(shell_word(w3, false) == shell_word(rest, true));
            assert(shell_word(w1, false) == Some(seq![w1[1]] + s.drop_first()));
            assert(shell_word(w, true) == shell_word(w1, false));
        } else {
            assert(w.drop_first() =~= rest);
            assert(shell_word(w, true) == Some(seq![s[0]] + s.drop_first()));
        }
    }
}

/// A POSIX shell, removing quotes and expanding nothing, reads the
/// displayed word as exactly one word, equal to the original value, so
/// metacharacters in it are never interpreted. (An empty value is shown as
/// nothing, which a shell reads as no word at all.)
pub proof fn shell_quote_reads_back(s: Seq<char>)
    requires
        s.len() > 0,
    ensures
        shell_word(shell_quote_spec(s), false) == Some(s),
{
    if all_shell_safe(s) {
        lemma_plain_word(s);
    } else {
        lemma_quoted_body(s);
        let w = seq!['\''] + quote_body(s) + seq!['\''];
        assert(w.drop_first() =~= quote_body(s) + seq!['\'']);
    }
}

/// The parts of a command separated by single spaces.
pub open spec fn join_words(parts: Seq<Seq<char>>) -> Seq<char>
    decreases parts.len(),
{
    if parts.len() == 0 {
        Seq::empty()
    } else if parts.len() == 1 {
        parts[0]
    } else {
        join_words(parts.drop_last()) + seq![' '] + parts.last()
    }
}

pub open spec fn command_string_spec(command: Seq<String>) -> Seq<char> {
    join_words(command.map_values(|p: String| shell_quote_spec(p@)))
}

/// A command rendered as one shell-quoted line for display.
pub fn command_string(command: &[String]) -> (r: String)
    ensures
        r@ == command_string_spec(command@),
{
    let mut out = String::new();
    let mut i: usize = 0;
    while i < command.len()
        invariant
            i <= command@.len(),
            out@ == command_string_spec(command@.take(i as int)),
        decreases command@.len() - i,
    {
        let quoted = shell_quote(command[i].as_str());
        if i > 0 {
            push_char(&mut out, ' ');
        }
        push_str(&mut out, quoted.as_str());
        proof {
            let prev = command@.take(i as int).map_values(|p: String| shell_quote_spec(p@));
            let next = command@.take(i + 1).map_values(|p: String| shell_quote_spec(p@));
            assert(next.drop_last() =~= prev);
            if i == 0 {
                assert(out@ =~= join_words(next));
            } else {
                assert(out@ =~= join_words(next));
            }
        }
        i = i + 1;
    }
    assert(command@.take(command@.len() as int) =~= command@);
    out
}


// ---------------------------------------------------------------------------
// Path containment
// ---------------------------------------------------------------------------

/// The `/`-separated runs of a path, empty runs included (what
/// `str::split('/')` yields).
pub open spec fn split_slash(s: Seq<char>) -> Seq<Seq<char>>
    decreases s.len(),
{
    if s.len() == 0 {
        seq![Seq::empty()]
    } else {
        let r = split_slash(s.drop_last());
        if s.last() == '/' {
            r.push(Seq::empty())
        } else {
            r.update(r.len() - 1, r.last().push(s.last()))
        }
    }
}

pub proof fn lemma_split_slash_len(s: Seq<char>)
    ensures
        split_slash(s).len() >= 1,
    decreases s.len(),
{
    if s.len() > 0 {
        lemma_split_slash_len(s.drop_last());
    }
}

/// The root directory component.
pub open spec fn root_component() -> Seq<char> {
    seq!['/']
}

/// The current-directory component, kept only at the start of a relative
/// path.
pub open spec fn cur_component() -> Seq<char> {
    seq!['.']
}

/// Whether a later run is a normal component (empty runs and `.` vanish).
pub open spec fn normal_run(p: Seq<char>) -> bool {
    p.len() > 0 && p != cur_component()
}

/// The components of a Unix path as `Path::components` yields them: a
/// root, then the non-empty runs between slashes, with `.` dropped except
/// at the start of a relative path.
pub open spec fn components_spec(s: Seq<char>) -> Seq<Seq<char>> {
    let parts = split_slash(s);
    let first = parts[0];
    let head: Seq<Seq<char>> = if s.len() > 0 && s[0] == '/' {
        seq![root_component()]
    } else if first.len() > 0 {
        seq![first]
    } else {
        Seq::empty()
    };
    head + normal_runs(parts.drop_first())
}

/// The normal components among later runs, in order.
pub open spec fn normal_runs(parts: Seq<Seq<char>>) -> Seq<Seq<char>>
    decreases parts.len(),
{
    if parts.len() == 0 {
        parts
    } else if normal_run(parts.last()) {
        normal_runs(parts.drop_last()).push(parts.last())
    } else {
        normal_runs(parts.drop_last())
    }
}

pub open spec fn deep(v: Seq<Vec<char>>) -> Seq<Seq<char>> {
    v.map_values(|x: Vec<char>| x@)
}

fn split_path(cs: &[char]) -> (r: Vec<Vec<char>>)
    ensures
        deep(r@) == split_slash(cs@),
{
    let mut parts: Vec<Vec<char>> = Vec::new();
    parts.push(Vec::new());
    let mut i: usize = 0;
    assert(deep(parts@) =~= split_slash(cs@.take(0)));
    while i < cs.len()
        invariant
            i <= cs@.len(),
            parts@.len() >= 1,
            deep(parts@) == split_slash(cs@.take(i as int)),
        decreases cs@.len() - i,
    {
        let c = cs[i];
        let ghost before = deep(parts@);
        proof {
            assert(cs@.take(i + 1).drop_last() =~= cs@.take(i as int));
            assert(cs@.take(i + 1).last() == c);
        }
        if c == '/' {
            parts.push(Vec::new());
            assert(deep(parts@) =~= before.push(Seq::<char>::empty()));
        } else {
            let last = parts.len() - 1;
            let mut run = parts.pop().unwrap();
            run.push(c);
            parts.push(run);
            assert(deep(parts@) =~= before.update(before.len() - 1, before.last().push(c)));
        }
        i = i + 1;
    }
    assert(cs@.take(cs@.len() as int) =~= cs@);
    parts
}

/// The components of a path (see `components_spec`).
pub fn components(path: &str) -> (r: Vec<Vec<char>>)
    ensures
        deep(r@) == components_spec(path@),
{
    let cs = chars_of(path);
    let parts = split_path(&cs);
    proof {
        lemma_split_slash_len(cs@);
    }
    let mut out: Vec<Vec<char>> = Vec::new();
    let dot: Vec<char> = one_char('.');
    if cs.len() > 0 && cs[0] == '/' {
        out.push(one_char('/'));
    } else if parts[0].len() > 0 {
        out.push(copy_chars(&parts[0]));
    }
    let ghost head = deep(out@);
    let ghost rest = deep(parts@).drop_first();
    let mut i: usize = 1;
    assert(normal_runs(rest.take(0)) =~= Seq::<Seq<char>>::empty());
    assert(deep(out@) =~= head + normal_runs(rest.take(0)));
    while i < parts.len()
        invariant
            1 <= i <= parts@.len(),
            dot@ == cur_component(),
            rest == deep(parts@).drop_first(),
            deep(out@) == head + normal_runs(rest.take(i - 1)),
        decreases parts@.len() - i,
    {
        let keep = parts[i].len() > 0 && !chars_eq(&parts[i], &dot);
        proof {
            assert(deep(parts@)[i as int] == parts@[i as int]@);
            assert(keep == normal_run(parts@[i as int]@));
            assert(rest.take(i as int).drop_last() =~= rest.take(i - 1));
            assert(rest.take(i as int).last() == parts@[i as int]@);
        }
        if keep {
            let ghost prev = deep(out@);
            out.push(copy_chars(&parts[i]));
            assert(deep(out@) =~= prev.push(parts@[i as int]@));
            assert(normal_runs(rest.take(i as int)) == normal_runs(rest.take(i - 1)).push(
                parts@[i as int]@,
            ));
            assert(deep(out@) =~= head + normal_runs(rest.take(i as int)));
        } else {
            assert(deep(out@) =~= head + normal_runs(rest.take(i as int)));
        }
        i = i + 1;
    }
    assert(rest.take(parts@.len() - 1) =~= rest);
    assert(deep(parts@)[0] == parts@[0]@);
    assert(deep(out@) =~= components_spec(path@));
    out
}

/// The parent-directory component.
pub open spec fn parent_component() -> Seq<char> {
    seq!['.', '.']
}

/// The final component of a path when it is a normal name (what
/// `Path::file_name` gives): none for an empty path, the root, `.` or `..`.
pub open spec fn file_name_spec(path: Seq<char>) -> Option<Seq<char>> {
    let c = components_spec(path);
    if c.len() == 0 {
        None
    } else {
        let last = c.last();
        if last == root_component() || last == cur_component() || last == parent_component() {
            None
        } else {
            Some(last)
        }
    }
}

pub fn file_name(path: &str) -> (r: Option<Vec<char>>)
    ensures
        match r {
            Some(v) => file_name_spec(path@) == Some(v@),
            None => file_name_spec(path@) is None,
        },
{
    let c = components(path);
    if c.len() == 0 {
        return None;
    }
    let last = &c[c.len() - 1];
    assert(deep(c@).last() == last@);
    let root = one_char('/');
    let dot = one_char('.');
    let mut dots = one_char('.');
    dots.push('.');
    assert(dots@ =~= parent_component());
    if chars_eq(last, &root) || chars_eq(last, &dot) || chars_eq(last, &dots) {
        None
    } else {
        Some(copy_chars(last))
    }
}

fn components_prefix(a: &Vec<Vec<char>>, b: &Vec<Vec<char>>) -> (r: bool)
    ensures
        r == deep(a@).is_prefix_of(deep(b@)),
{
    if a.len() > b.len() {
        return false;
    }
    let mut i: usize = 0;
    while i < a.len()
        invariant
            a@.len() <= b@.len(),
            i <= a@.len(),
            forall|j: int| 0 <= j < i ==> deep(a@)[j] == deep(b@)[j],
        decreases a@.len() - i,
    {
        if !chars_eq(&a[i], &b[i]) {
            assert(deep(a@)[i as int] == a@[i as int]@);
            assert(deep(b@).subrange(0, a@.len() as int)[i as int] == b@[i as int]@);
            return false;
        }
        i = i + 1;
    }
    true
}

/// Whether `path` is `root` or lies below it, compared component by
/// component (so `/home/username` is not inside `/home/user`).
pub open spec fn path_within_spec(path: Seq<char>, root: Seq<char>) -> bool {
    components_spec(root).is_prefix_of(components_spec(path))
}

pub fn path_within(path: &str, root: &str) -> (r: bool)
    ensures
        r == path_within_spec(path@, root@),
{
    let p = components(path);
    let q = components(root);
    components_prefix(&q, &p)
}

/// Containment is reflexive and transitive.
pub proof fn path_within_is_a_preorder(a: Seq<char>, b: Seq<char>, c: Seq<char>)
    ensures
        path_within_spec(a, a),
        path_within_spec(a, b) && path_within_spec(b, c) ==> path_within_spec(a, c),
{
}

// ---------------------------------------------------------------------------
// Size display
// ---------------------------------------------------------------------------

pub open spec fn two_pow(n: nat) -> nat
    decreases n,
{
    if n == 0 {
        1
    } else {
        2 * two_pow((n - 1) as nat)
    }
}

pub open spec fn kib_pow(u: nat) -> nat
    decreases u,
{
    if u == 0 {
        1
    } else {
        1024 * kib_pow((u - 1) as nat)
    }
}

/// How many low bits an integer loses when stored in a double (whose
/// significand holds 53 bits).
pub open spec fn significand_shift(b: nat) -> nat
    decreases b,
{
    if b < 9007199254740992 {
        0
    } else {
        1 + significand_shift(b / 2)
    }
}

/// `n / d` rounded to the nearest integer, ties to even.
pub open spec fn round_half_even(n: nat, d: nat) -> nat {
    let q = n / d;
    let r = n % d;
    if 2 * r > d || (2 * r == d && q % 2 == 1) {
        q + 1
    } else {
        q
    }
}

/// The exact value of `bytes as f64` (round to nearest, ties to even).
pub open spec fn as_double(b: nat) -> nat {
    let s = significand_shift(b);
    round_half_even(b, two_pow(s)) * two_pow(s)
}

/// The largest unit (at most PiB) whose size the value reaches.
pub open spec fn unit_index(v: nat, u: nat) -> nat
    decreases 5 - u,
{
    if u < 5 && v >= kib_pow(u + 1) {
        unit_index(v, u + 1)
    } else {
        u
    }
}

pub open spec fn unit_name(u: nat) -> Seq<char> {
    if u == 0 {
        "B"@
    } else if u == 1 {
        "KiB"@
    } else if u == 2 {
        "MiB"@
    } else if u == 3 {
        "GiB"@
    } else if u == 4 {
        "TiB"@
    } else {
        "PiB"@
    }
}

pub open spec fn digit_char(d: nat) -> char {
    (('0' as u32) + d) as char
}

/// Decimal digits of a natural number.
pub open spec fn decimal(n: nat) -> Seq<char>
    decreases n,
{
    if n < 10 {
        seq![digit_char(n)]
    } else {
        decimal(n / 10).push(digit_char(n % 10))
    }
}

/// One-decimal rendering of `t / 10` with a trailing `.0` dropped.
pub open spec fn tenths(t: nat) -> Seq<char> {
    if t % 10 == 0 {
        decimal(t / 10)
    } else {
        decimal(t / 10).push('.').push(digit_char(t % 10))
    }
}

/// Binary-unit display of a byte count: whole bytes below 1 KiB, no
/// decimals from ten units on, otherwise one decimal without a trailing
/// zero; the value is the double nearest the count, as displayed by
/// Rust's correctly rounded formatting.
pub open spec fn format_size_spec(bytes: nat) -> Seq<char> {
    let v = as_double(bytes);
    let u = unit_index(v, 0);
    if u == 0 {
        decimal(bytes) + " B"@
    } else if v >= 10 * kib_pow(u) {
        decimal(round_half_even(v, kib_pow(u))) + " "@ + unit_name(u)
    } else {
        tenths(round_half_even(v * 10, kib_pow(u))) + " "@ + unit_name(u)
    }
}

fn push_digit(out: &mut String, d: u128)
    requires
        d < 10,
    ensures
        final(out)@ == old(out)@.push(digit_char(d as nat)),
{
    let c = ((d as u8) + 48) as char;
    assert(c == digit_char(d as nat));
    push_char(out, c);
}

/// Appends the decimal digits of `n`.
pub fn push_decimal(out: &mut String, n: u128)
    ensures
        final(out)@ == old(out)@ + decimal(n as nat),
    decreases n,
{
    if n >= 10 {
        push_decimal(out, n / 10);
        push_digit(out, n % 10);
        assert(final(out)@ =~= old(out)@ + decimal(n as nat));
    } else {
        push_digit(out, n);
        assert(final(out)@ =~= old(out)@ + decimal(n as nat));
    }
}

fn rhe(n: u128, d: u128) -> (r: u128)
    requires
        d > 0,
        n / d < u128::MAX,
    ensures
        r == round_half_even(n as nat, d as nat),
{
    let q = n / d;
    let r = n % d;
    if (r > d - r) || (r == d - r && q % 2 == 1) {
        q + 1
    } else {
        q
    }
}

proof fn lemma_two_pow_positive(n: nat)
    ensures
        two_pow(n) >= 1,
    decreases n,
{
    if n > 0 {
        lemma_two_pow_positive((n - 1) as nat);
    }
}

proof fn lemma_kib_pow_values()
    ensures
        kib_pow(0) == 1,
        kib_pow(1) == 1024,
        kib_pow(2) == 1048576,
        kib_pow(3) == 1073741824,
        kib_pow(4) == 1099511627776,
        kib_pow(5) == 1125899906842624,
        kib_pow(6) == 1152921504606846976,
{
    reveal_with_fuel(kib_pow, 7);
}

proof fn lemma_two_pow_53()
    ensures
        two_pow(53) == 9007199254740992,
{
    reveal_with_fuel(two_pow, 54);
}

/// The value of `bytes as f64` as an exact integer, and the bits dropped.
fn double_value(bytes: u64) -> (r: u128)
    ensures
        r == as_double(bytes as nat),
        r <= 166153499473114484112975882535043072,
{
    proof {
        lemma_two_pow_53();
    }
    let b = bytes as u128;
    let mut p: u128 = 1;
    let mut m: u128 = b;
    let ghost mut s: nat = 0;
    while m >= 9007199254740992
        invariant
            b == bytes as u128,
            p == two_pow(s),
            m == b / p,
            p <= 18446744073709551616,
            p >= 1,
            significand_shift(b as nat) == s + significand_shift(m as nat),
            two_pow(53) == 9007199254740992,
        decreases m,
    {
        proof {
            vstd::arithmetic::div_mod::lemma_div_denominator(b as int, p as int, 2);
            assert(significand_shift(m as nat) == 1 + significand_shift((m / 2) as nat));
            assert(p * 2 <= b) by (nonlinear_arith)
                requires
                    m == b / p,
                    m >= 2,
                    p >= 1,
            {
                vstd::arithmetic::div_mod::lemma_fundamental_div_mod(b as int, p as int);
            }
        }
        m = m / 2;
        p = p * 2;
        proof {
            s = s + 1;
        }
    }
    assert(significand_shift(m as nat) == 0);
    let q = rhe(b, p);
    assert(q <= m + 1);
    assert(q * p <= 166153499473114484112975882535043072) by (nonlinear_arith)
        requires
            q <= 9007199254740992,
            p <= 18446744073709551616,
    ;
    q * p
}

/// Human-readable size with binary units, as concise as possible.
pub fn format_size(bytes: u64) -> (r: String)
    ensures
        r@ == format_size_spec(bytes as nat),
{
    proof {
        lemma_kib_pow_values();
    }
    let v = double_value(bytes);
    let mut unit: u128 = 0;
    let mut scale: u128 = 1;
    assert(unit_index(v as nat, 0) == unit_index(v as nat, unit as nat));
    while unit < 5 && v >= scale * 1024
        invariant
            unit <= 5,
            scale == kib_pow(unit as nat),
            (unit == 0 && scale == 1) || (unit == 1 && scale == 1024) || (unit == 2 && scale
                == 1048576) || (unit == 3 && scale == 1073741824) || (unit == 4 && scale
                == 1099511627776) || (unit == 5 && scale == 1125899906842624),
            unit_index(v as nat, 0) == unit_index(v as nat, unit as nat),
            kib_pow(0) == 1,
            kib_pow(1) == 1024,
            kib_pow(2) == 1048576,
            kib_pow(3) == 1073741824,
            kib_pow(4) == 1099511627776,
            kib_pow(5) == 1125899906842624,
            kib_pow(6) == 1152921504606846976,
        decreases 5 - unit,
    {
        scale = scale * 1024;
        unit = unit + 1;
    }
    assert(unit_index(v as nat, unit as nat) == unit as nat);
    let names: [&str; 6] = ["B", "KiB", "MiB", "GiB", "TiB", "PiB"];
    let mut out = String::new();
    if unit == 0 {
        push_decimal(&mut out, bytes as u128);
        push_str(&mut out, " B");
        return out;
    }
    if v >= 10 * scale {
        let q = rhe(v, scale);
        push_decimal(&mut out, q);
    } else {
        let t = rhe(v * 10, scale);
        push_decimal(&mut out, t / 10);
        if t % 10 != 0 {
            push_char(&mut out, '.');
            push_digit(&mut out, t % 10);
        }
    }
    push_str(&mut out, " ");
    let name = names[unit as usize];
    assert(name@ == unit_name(unit as nat));
    push_str(&mut out, name);
    out
}

} // verus!
