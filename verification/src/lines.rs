//! Splitting text the way `str::lines` and `str::split_whitespace` do, and
//! the small per-line helpers the output parsers share.
use crate::text::{is_space, is_space_char, ascii_lower, ascii_lower_char};
use crate::util::deep;
use vstd::prelude::*;

verus! {

/// The pieces of `s` between newline characters, empty pieces included.
pub open spec fn split_newlines(s: Seq<char>) -> Seq<Seq<char>>
    decreases s.len(),
{
    if s.len() == 0 {
        seq![Seq::empty()]
    } else {
        let r = split_newlines(s.drop_last());
        if s.last() == '\n' {
            r.push(Seq::empty())
        } else {
            r.update(r.len() - 1, r.last().push(s.last()))
        }
    }
}

pub proof fn lemma_split_newlines_len(s: Seq<char>)
    ensures
        split_newlines(s).len() >= 1,
    decreases s.len(),
{
    if s.len() > 0 {
        lemma_split_newlines_len(s.drop_last());
    }
}

/// A terminated line without its carriage return, when it has one.
pub open spec fn strip_cr(line: Seq<char>) -> Seq<char> {
    if line.len() > 0 && line.last() == '\r' {
        line.drop_last()
    } else {
        line
    }
}

/// The lines of a text as `str::lines` yields them: split at `\n`, a `\r`
/// before the `\n` removed, and no empty line after a final newline.
pub open spec fn lines_spec(s: Seq<char>) -> Seq<Seq<char>> {
    let raw = split_newlines(s);
    let ended = raw.drop_last().map_values(|l: Seq<char>| strip_cr(l));
    if raw.last().len() > 0 {
        ended.push(raw.last())
    } else {
        ended
    }
}

fn strip_cr_exec(line: Vec<char>) -> (r: Vec<char>)
    ensures
        r@ == strip_cr(line@),
{
    let mut line = line;
    if line.len() > 0 && line[line.len() - 1] == '\r' {
        line.pop();
    }
    line
}

/// `str::lines` over a character slice.
pub fn lines_of(s: &[char]) -> (r: Vec<Vec<char>>)
    ensures
        deep(r@) == lines_spec(s@),
{
    let mut out: Vec<Vec<char>> = Vec::new();
    let mut cur: Vec<char> = Vec::new();
    assert(s@.take(0) =~= Seq::<char>::empty());
    assert(deep(out@) =~= split_newlines(s@.take(0)).drop_last().map_values(
        |l: Seq<char>| strip_cr(l),
    ));
    for i in 0..s.len()
        invariant
            deep(out@) == split_newlines(s@.take(i as int)).drop_last().map_values(
                |l: Seq<char>| strip_cr(l),
            ),
            cur@ == split_newlines(s@.take(i as int)).last(),
    {
        let ghost p = s@.take(i as int);
        let ghost raw = split_newlines(p);
        proof {
            lemma_split_newlines_len(p);
            assert(s@.take(i + 1).drop_last() =~= p);
            assert(s@.take(i + 1).last() == s@[i as int]);
        }
        let c = s[i];
        if c == '\n' {
            let ghost before = deep(out@);
            let done = strip_cr_exec(cur);
            out.push(done);
            cur = Vec::new();
            let ghost next = split_newlines(s@.take(i + 1));
            assert(next == raw.push(Seq::empty()));
            assert(next.drop_last() =~= raw);
            assert(raw =~= raw.drop_last().push(raw.last()));
            assert(deep(out@) =~= before.push(strip_cr(raw.last())));
            assert(deep(out@) =~= raw.map_values(|l: Seq<char>| strip_cr(l)));
            assert(cur@ =~= next.last());
        } else {
            cur.push(c);
            let ghost next = split_newlines(s@.take(i + 1));
            assert(next == raw.update(raw.len() - 1, raw.last().push(c)));
            assert(next.drop_last() =~= raw.drop_last());
        }
    }
    assert(s@.take(s@.len() as int) =~= s@);
    if cur.len() > 0 {
        let ghost before = deep(out@);
        out.push(cur);
        assert(deep(out@) =~= before.push(split_newlines(s@).last()));
    }
    out
}

/// The pieces of `s` between whitespace characters, empty pieces included.
pub open spec fn split_spaces(s: Seq<char>) -> Seq<Seq<char>>
    decreases s.len(),
{
    if s.len() == 0 {
        seq![Seq::empty()]
    } else {
        let r = split_spaces(s.drop_last());
        if is_space_char(s.last()) {
            r.push(Seq::empty())
        } else {
            r.update(r.len() - 1, r.last().push(s.last()))
        }
    }
}

pub proof fn lemma_split_spaces_len(s: Seq<char>)
    ensures
        split_spaces(s).len() >= 1,
    decreases s.len(),
{
    if s.len() > 0 {
        lemma_split_spaces_len(s.drop_last());
    }
}

/// The non-empty pieces, in order.
pub open spec fn non_empty(parts: Seq<Seq<char>>) -> Seq<Seq<char>>
    decreases parts.len(),
{
    if parts.len() == 0 {
        parts
    } else if parts.last().len() > 0 {
        non_empty(parts.drop_last()).push(parts.last())
    } else {
        non_empty(parts.drop_last())
    }
}

/// The words of a text as `str::split_whitespace` yields them.
pub open spec fn words_spec(s: Seq<char>) -> Seq<Seq<char>> {
    non_empty(split_spaces(s))
}

/// `str::split_whitespace` over a character slice.
pub fn words_of(s: &[char]) -> (r: Vec<Vec<char>>)
    ensures
        deep(r@) == words_spec(s@),
{
    let mut out: Vec<Vec<char>> = Vec::new();
    let mut cur: Vec<char> = Vec::new();
    assert(s@.take(0) =~= Seq::<char>::empty());
    assert(split_spaces(s@.take(0)).drop_last() =~= Seq::<Seq<char>>::empty());
    assert(deep(out@) =~= non_empty(split_spaces(s@.take(0)).drop_last()));
    for i in 0..s.len()
        invariant
            deep(out@) == non_empty(split_spaces(s@.take(i as int)).drop_last()),
            cur@ == split_spaces(s@.take(i as int)).last(),
    {
        let ghost p = s@.take(i as int);
        let ghost raw = split_spaces(p);
        proof {
            lemma_split_spaces_len(p);
            assert(s@.take(i + 1).drop_last() =~= p);
            assert(s@.take(i + 1).last() == s@[i as int]);
        }
        let c = s[i];
        if is_space(c) {
            let ghost before = deep(out@);
            let ghost next = split_spaces(s@.take(i + 1));
            assert(next == raw.push(Seq::empty()));
            assert(next.drop_last() =~= raw);
            assert(raw =~= raw.drop_last().push(raw.last()));
            if cur.len() > 0 {
                out.push(cur);
                assert(deep(out@) =~= before.push(raw.last()));
            }
            cur = Vec::new();
            assert(cur@ =~= next.last());
        } else {
            cur.push(c);
            let ghost next = split_spaces(s@.take(i + 1));
            assert(next == raw.update(raw.len() - 1, raw.last().push(c)));
            assert(next.drop_last() =~= raw.drop_last());
        }
    }
    assert(s@.take(s@.len() as int) =~= s@);
    proof {
        lemma_split_spaces_len(s@);
        assert(split_spaces(s@) =~= split_spaces(s@).drop_last().push(split_spaces(s@).last()));
    }
    if cur.len() > 0 {
        let ghost before = deep(out@);
        out.push(cur);
        assert(deep(out@) =~= before.push(split_spaces(s@).last()));
    }
    out
}

/// The first word of a text, or an empty sequence when it has none (what
/// `split_whitespace().next().unwrap_or_default()` gives).
pub open spec fn first_word(s: Seq<char>) -> Seq<char> {
    if words_spec(s).len() > 0 {
        words_spec(s)[0]
    } else {
        Seq::empty()
    }
}

pub fn first_word_of(s: &[char]) -> (r: Vec<char>)
    ensures
        r@ == first_word(s@),
{
    let mut words = words_of(s);
    if words.len() > 0 {
        assert(deep(words@)[0] == words@[0]@);
        words.swap_remove(0)
    } else {
        Vec::new()
    }
}

/// ASCII lowercase of every character.
pub open spec fn ascii_lower_seq(s: Seq<char>) -> Seq<char> {
    s.map_values(|c: char| ascii_lower_char(c))
}

/// `str::to_ascii_lowercase` over a character slice.
pub fn ascii_lower_chars(s: &[char]) -> (r: Vec<char>)
    ensures
        r@ == ascii_lower_seq(s@),
{
    let mut out: Vec<char> = Vec::new();
    for i in 0..s.len()
        invariant
            out@ == ascii_lower_seq(s@.take(i as int)),
    {
        out.push(ascii_lower(s[i]));
        assert(ascii_lower_seq(s@.take(i + 1)) =~= ascii_lower_seq(s@.take(i as int)).push(
            ascii_lower_char(s@[i as int]),
        ));
    }
    assert(s@.take(s@.len() as int) =~= s@);
    out
}


/// The pieces of `s` between occurrences of `c`, empty pieces included
/// (what `str::split(c)` yields).
pub open spec fn split_on(s: Seq<char>, c: char) -> Seq<Seq<char>>
    decreases s.len(),
{
    if s.len() == 0 {
        seq![Seq::empty()]
    } else {
        let r = split_on(s.drop_last(), c);
        if s.last() == c {
            r.push(Seq::empty())
        } else {
            r.update(r.len() - 1, r.last().push(s.last()))
        }
    }
}

pub proof fn lemma_split_on_len(s: Seq<char>, c: char)
    ensures
        split_on(s, c).len() >= 1,
    decreases s.len(),
{
    if s.len() > 0 {
        lemma_split_on_len(s.drop_last(), c);
    }
}

/// `str::split` on a character, over a character slice.
pub fn split_chars(s: &[char], c: char) -> (r: Vec<Vec<char>>)
    ensures
        deep(r@) == split_on(s@, c),
{
    let mut parts: Vec<Vec<char>> = Vec::new();
    parts.push(Vec::new());
    assert(s@.take(0) =~= Seq::<char>::empty());
    assert(deep(parts@) =~= split_on(s@.take(0), c));
    for i in 0..s.len()
        invariant
            parts@.len() >= 1,
            deep(parts@) == split_on(s@.take(i as int), c),
    {
        let x = s[i];
        let ghost before = deep(parts@);
        proof {
            assert(s@.take(i + 1).drop_last() =~= s@.take(i as int));
            assert(s@.take(i + 1).last() == x);
        }
        if x == c {
            parts.push(Vec::new());
            assert(deep(parts@) =~= before.push(Seq::<char>::empty()));
        } else {
            let mut run = parts.pop().unwrap();
            run.push(x);
            parts.push(run);
            assert(deep(parts@) =~= before.update(before.len() - 1, before.last().push(x)));
        }
    }
    assert(s@.take(s@.len() as int) =~= s@);
    parts
}

} // verus!
