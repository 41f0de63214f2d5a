//! Why a package is installed: the roles its manager records, the
//! transactions and logs that installed it, and the chain of dependencies
//! that keeps it.
use crate::lines::{
    ascii_lower_chars, ascii_lower_seq, first_word, lemma_split_on_len, lines_of, lines_spec,
    split_chars, split_on, words_of, words_spec,
};
use crate::model::{texts, Match, Role};
use crate::text::{
    chars_eq, chars_of, ends_with_chars, find_char, first_index, is_space, is_space_char,
    lemma_first_index, owned, push_char, push_chars, push_str, slice_chars, starts_with_chars,
    str_eq, string_of, trim_chars, trim_spec,
};
use crate::command::{CommandResult, CommandStatus};
use crate::matching::{capture_all, regex_groups};
use crate::preview::{nonblank_lines, zypper_solvable_pattern};
use crate::util::{deep, join_words, package_base, package_base_spec, sanitize, sanitize_spec};
use vstd::prelude::*;

verus! {

// ---------------------------------------------------------------------------
// Commands as shown
// ---------------------------------------------------------------------------

/// A recorded command on one line: terminal controls replaced, runs of
/// whitespace collapsed, and at most 180 characters (176 and a marker when
/// shortened).
pub open spec fn compact_spec(command: Seq<char>) -> Seq<char> {
    let clean = join_words(words_spec(sanitize_spec(command)));
    if clean.len() <= 180 {
        clean
    } else {
        clean.take(176) + "… (abbreviated)"@
    }
}

pub fn compact_command(command: &str) -> (r: String)
    ensures
        r@ == compact_spec(command@),
{
    let clean_text = sanitize(command);
    let cs = chars_of(clean_text.as_str());
    let words = words_of(&cs);
    let ghost ws = deep(words@);
    let mut clean: Vec<char> = Vec::new();
    for i in 0..words.len()
        invariant
            ws == deep(words@),
            clean@ == join_words(ws.take(i as int)),
    {
        let ghost prev = ws.take(i as int);
        assert(ws.take(i + 1).drop_last() =~= prev);
        assert(ws.take(i + 1).last() == words@[i as int]@);
        let ghost before = clean@;
        if i > 0 {
            clean.push(' ');
        }
        let w = &words[i];
        for j in 0..w.len()
            invariant
                clean@ == (if i > 0 {
                    before + seq![' ']
                } else {
                    before
                }) + w@.take(j as int),
        {
            clean.push(w[j]);
            assert(w@.take(j + 1) =~= w@.take(j as int).push(w@[j as int]));
        }
        assert(w@.take(w@.len() as int) =~= w@);
        proof {
            if i == 0 {
                assert(ws.take(1) =~= seq![w@]);
                assert(clean@ =~= join_words(ws.take(1)));
            } else {
                assert(clean@ =~= join_words(ws.take(i + 1)));
            }
        }
    }
    assert(ws.take(ws.len() as int) =~= ws);
    if clean.len() <= 180 {
        string_of(&clean)
    } else {
        let head = slice_chars(&clean, 0, 176);
        assert(head@ =~= clean@.take(176));
        let mut out = string_of(&head);
        push_str(&mut out, "… (abbreviated)");
        out
    }
}

// ---------------------------------------------------------------------------
// `Key: value` records
// ---------------------------------------------------------------------------

/// One record: its fields in the order they appeared.
pub type FieldList = Seq<(Seq<char>, Seq<char>)>;

/// The state of a record scan: the records finished so far and the fields
/// of the open one.
pub open spec fn record_step(state: (Seq<FieldList>, FieldList), line: Seq<char>) -> (
    Seq<FieldList>,
    FieldList,
) {
    let (records, current) = state;
    if trim_spec(line).len() == 0 {
        (
            if current.len() > 0 {
                records.push(current)
            } else {
                records
            },
            Seq::empty(),
        )
    } else if !is_space_char(line[0]) {
        let at = first_index(line, ':');
        if at < line.len() {
            (records, current.push((trim_spec(line.take(at)), trim_spec(line.skip(at + 1)))))
        } else {
            (records, current)
        }
    } else if current.len() > 0 {
        let (k, v) = current.last();
        (records, current.update(current.len() - 1, (k, v + seq![' '] + trim_spec(line))))
    } else {
        (records, current)
    }
}

pub open spec fn record_scan(lines: Seq<Seq<char>>) -> (Seq<FieldList>, FieldList)
    decreases lines.len(),
{
    if lines.len() == 0 {
        (Seq::empty(), Seq::empty())
    } else {
        record_step(record_scan(lines.drop_last()), lines.last())
    }
}

/// The blank-line separated `Key: value` records of a text; an indented
/// line continues the value of the last key.
pub open spec fn key_records_spec(text: Seq<char>) -> Seq<FieldList> {
    record_scan(lines_spec(text).push(Seq::empty())).0
}

/// The value of a field: its last assignment.
pub open spec fn field_value(fields: FieldList, key: Seq<char>) -> Option<Seq<char>>
    decreases fields.len(),
{
    if fields.len() == 0 {
        None
    } else if fields.last().0 == key {
        Some(fields.last().1)
    } else {
        field_value(fields.drop_last(), key)
    }
}

/// A parsed record: its fields in order.
pub struct KeyRecord {
    pub fields: Vec<(String, String)>,
}

pub open spec fn record_view(r: KeyRecord) -> FieldList {
    r.fields@.map_values(|f: (String, String)| (f.0@, f.1@))
}

pub open spec fn records_view(v: Seq<KeyRecord>) -> Seq<FieldList> {
    v.map_values(|r: KeyRecord| record_view(r))
}

impl KeyRecord {
    /// The value of a field, as its last assignment left it.
    pub fn get(&self, key: &str) -> (r: Option<String>)
        ensures
            match r {
                Some(v) => field_value(record_view(*self), key@) == Some(v@),
                None => field_value(record_view(*self), key@) is None,
            },
    {
        let ghost fs = record_view(*self);
        let mut i: usize = self.fields.len();
        assert(fs.take(i as int) =~= fs);
        while i > 0
            invariant
                i <= self.fields@.len(),
                fs == record_view(*self),
                field_value(fs, key@) == field_value(fs.take(i as int), key@),
            decreases i,
        {
            assert(fs.take(i as int).last() == (self.fields@[i - 1].0@, self.fields@[i - 1].1@));
            if str_eq(self.fields[i - 1].0.as_str(), key) {
                return Some(self.fields[i - 1].1.clone());
            }
            assert(fs.take(i as int).drop_last() =~= fs.take(i - 1));
            i = i - 1;
        }
        None
    }
}

fn record_line(records: &mut Vec<KeyRecord>, current: &mut Vec<(String, String)>, line: &Vec<char>)
    ensures
        (records_view(final(records)@), final(current)@.map_values(
            |f: (String, String)| (f.0@, f.1@),
        )) == record_step(
            (
                records_view(old(records)@),
                old(current)@.map_values(|f: (String, String)| (f.0@, f.1@)),
            ),
            line@,
        ),
{
    let t = trim_chars(line);
    let ghost cv = current@.map_values(|f: (String, String)| (f.0@, f.1@));
    if t.len() == 0 {
        let ghost rv = records_view(records@);
        if current.len() > 0 {
            let mut fields: Vec<(String, String)> = Vec::new();
            std::mem::swap(&mut fields, current);
            records.push(KeyRecord { fields });
            assert(records_view(records@) =~= rv.push(cv));
        }
        assert(current@.map_values(|f: (String, String)| (f.0@, f.1@)) =~= Seq::<
            (Seq<char>, Seq<char>),
        >::empty());
    } else if !is_space(line[0]) {
        let at = find_char(line, ':');
        proof {
            lemma_first_index(line@, ':');
        }
        if at < line.len() {
            let k = slice_chars(line, 0, at);
            let v = slice_chars(line, at + 1, line.len());
            assert(k@ =~= line@.take(at as int));
            assert(v@ =~= line@.skip(at + 1));
            let kt = trim_chars(&k);
            let vt = trim_chars(&v);
            current.push((string_of(&kt), string_of(&vt)));
            assert(current@.map_values(|f: (String, String)| (f.0@, f.1@)) =~= cv.push(
                (kt@, vt@),
            ));
        }
    } else if current.len() > 0 {
        let last = current.len() - 1;
        let ghost oc = current@;
        let (k, mut v) = current.remove(last);
        assert(k@ == cv.last().0 && v@ == cv.last().1) by {
            assert(oc[last as int] == (k, v));
        }
        push_char(&mut v, ' ');
        push_chars(&mut v, &t);
        assert(v@ =~= cv.last().1 + seq![' '] + t@);
        let ghost before = current@;
        assert(before =~= oc.take(last as int));
        let ghost kv = k@;
        let ghost vv = v@;
        current.push((k, v));
        assert forall|j: int| 0 <= j < last implies current@[j] == oc[j] by {}
        assert(current@[last as int].0@ == kv);
        assert(current@[last as int].1@ == vv);
        assert(current@.map_values(|f: (String, String)| (f.0@, f.1@)) =~= cv.update(
            cv.len() - 1,
            (cv.last().0, cv.last().1 + seq![' '] + t@),
        ));
    }
}

/// The `Key: value` records of a text.
pub fn parse_key_records(text: &str) -> (r: Vec<KeyRecord>)
    ensures
        records_view(r@) == key_records_spec(text@),
{
    let cs = chars_of(text);
    let lines = lines_of(&cs);
    let ghost ls = deep(lines@).push(Seq::empty());
    let mut records: Vec<KeyRecord> = Vec::new();
    let mut current: Vec<(String, String)> = Vec::new();
    assert(ls.take(0) =~= Seq::<Seq<char>>::empty());
    assert(records_view(records@) =~= Seq::<FieldList>::empty());
    assert(current@.map_values(|f: (String, String)| (f.0@, f.1@)) =~= Seq::<
        (Seq<char>, Seq<char>),
    >::empty());
    for i in 0..lines.len()
        invariant
            ls == deep(lines@).push(Seq::empty()),
            (records_view(records@), current@.map_values(|f: (String, String)| (f.0@, f.1@)))
                == record_scan(ls.take(i as int)),
    {
        proof {
            assert(ls.take(i + 1).drop_last() =~= ls.take(i as int));
            assert(ls.take(i + 1).last() == lines@[i as int]@);
        }
        record_line(&mut records, &mut current, &lines[i]);
    }
    let blank: Vec<char> = Vec::new();
    proof {
        let n = lines@.len() as int;
        assert(ls.take(n + 1).drop_last() =~= ls.take(n));
        assert(ls.take(n + 1).last() == blank@);
        assert(ls.take(n + 1) =~= ls);
    }
    record_line(&mut records, &mut current, &blank);
    records
}


// ---------------------------------------------------------------------------
// Dependency chains
// ---------------------------------------------------------------------------

/// Parts joined by an arrow.
pub open spec fn join_arrows(parts: Seq<Seq<char>>) -> Seq<char>
    decreases parts.len(),
{
    if parts.len() == 0 {
        Seq::empty()
    } else if parts.len() == 1 {
        parts[0]
    } else {
        join_arrows(parts.drop_last()) + " → "@ + parts.last()
    }
}

/// A chain from an explicitly installed root to the package, told from
/// the root: `root requires it`, or `root → … ultimately requires it`.
pub open spec fn render_spec(path: Seq<Seq<char>>, relation: Seq<char>) -> Seq<char> {
    if path.len() == 2 {
        path[0] + " "@ + relation + " it"@
    } else {
        join_arrows(path.take(path.len() - 1)) + " ultimately "@ + relation + " it"@
    }
}

pub fn render_dependency_path(path: &[String], relation: &str) -> (r: String)
    requires
        path@.len() >= 1,
    ensures
        r@ == render_spec(texts(path@), relation@),
{
    let ghost ps = texts(path@);
    if path.len() == 2 {
        let mut out = path[0].clone();
        push_str(&mut out, " ");
        push_str(&mut out, relation);
        push_str(&mut out, " it");
        assert(ps[0] == path@[0]@);
        return out;
    }
    let n = path.len() - 1;
    let mut out = String::new();
    assert(ps.take(n as int).take(0) =~= Seq::<Seq<char>>::empty());
    for i in 0..n
        invariant
            n < path@.len(),
            ps == texts(path@),
            out@ == join_arrows(ps.take(n as int).take(i as int)),
    {
        let ghost prev = ps.take(n as int).take(i as int);
        assert(ps.take(n as int).take(i + 1).drop_last() =~= prev);
        assert(ps.take(n as int).take(i + 1).last() == path@[i as int]@);
        if i > 0 {
            push_str(&mut out, " → ");
        }
        push_str(&mut out, path[i].as_str());
        proof {
            if i == 0 {
                assert(ps.take(n as int).take(1) =~= seq![path@[0]@]);
                assert(out@ =~= join_arrows(ps.take(n as int).take(1)));
            } else {
                assert(out@ =~= join_arrows(ps.take(n as int).take(i + 1)));
            }
        }
    }
    assert(ps.take(n as int).take(n as int) =~= ps.take(n as int));
    push_str(&mut out, " ultimately ");
    push_str(&mut out, relation);
    push_str(&mut out, " it");
    out
}

/// The parents of `child`, as `parents` answered one of its queries,
/// include one whose package base is `parent`.
pub open spec fn parent_reported<F: Fn(&str, bool) -> Option<Vec<String>>>(
    parents: F,
    child: Seq<char>,
    parent: Seq<char>,
) -> bool {
    exists|x: &str, first: bool, answer: Option<Vec<String>>|
        #![trigger parents.ensures((x, first), answer)]
        x@ == child && parents.ensures((x, first), answer) && match answer {
            Some(v) => exists|k: int| 0 <= k < v@.len() && package_base_spec(#[trigger] v@[k]@) == parent,
            None => false,
        }
}

/// A chain that leads from `target` upwards: it starts at the target and
/// each next package was reported as a parent of the one before.
pub open spec fn upward_chain<F: Fn(&str, bool) -> Option<Vec<String>>>(
    parents: F,
    chain: Seq<Seq<char>>,
    target: Seq<char>,
) -> bool {
    &&& chain.len() >= 1
    &&& chain[0] == target
    &&& forall|j: int| 0 <= j < chain.len() - 1 ==> parent_reported(parents, #[trigger] chain[j], chain[j + 1])
}

pub open spec fn contains_text(v: Seq<String>, s: Seq<char>) -> bool {
    exists|i: int| 0 <= i < v.len() && #[trigger] v[i]@ == s
}

fn has_text(v: &Vec<String>, s: &str) -> (r: bool)
    ensures
        r == contains_text(v@, s@),
{
    for i in 0..v.len()
        invariant
            forall|j: int| 0 <= j < i ==> #[trigger] v@[j]@ != s@,
    {
        if str_eq(v[i].as_str(), s) {
            return true;
        }
    }
    false
}

fn reversed(v: &Vec<String>) -> (r: Vec<String>)
    ensures
        texts(r@) == texts(v@).reverse(),
{
    let mut out: Vec<String> = Vec::new();
    let mut i = v.len();
    while i > 0
        invariant
            i <= v@.len(),
            texts(out@) == texts(v@).skip(i as int).reverse(),
        decreases i,
    {
        let ghost before = out@;
        out.push(v[i - 1].clone());
        assert(texts(out@) =~= texts(v@).skip(i - 1).reverse()) by {
            assert(texts(out@) =~= texts(before).push(v@[i - 1]@));
        }
        i = i - 1;
    }
    assert(texts(v@).skip(0) =~= texts(v@));
    out
}

fn copy_path(v: &Vec<String>) -> (r: Vec<String>)
    ensures
        texts(r@) == texts(v@),
{
    let mut out: Vec<String> = Vec::new();
    for i in 0..v.len()
        invariant
            texts(out@) == texts(v@).take(i as int),
    {
        let ghost before = out@;
        out.push(v[i].clone());
        assert(texts(out@) =~= texts(before).push(v@[i as int]@));
        assert(texts(v@).take(i + 1) =~= texts(v@).take(i as int).push(v@[i as int]@));
    }
    assert(texts(v@).take(v@.len() as int) =~= texts(v@));
    out
}

/// Whether a package reported as a parent is explicitly installed under
/// its base name, and is not the target itself.
pub open spec fn explicit_parent_name(name: Seq<char>, explicit: Seq<String>, target: Seq<char>) -> bool {
    package_base_spec(name) != target && contains_text(explicit, package_base_spec(name))
}

/// Whether an answer of the parents lookup reports an explicitly installed
/// parent other than the target.
pub open spec fn reports_explicit_parent(
    answer: Option<Vec<String>>,
    explicit: Seq<String>,
    target: Seq<char>,
) -> bool {
    match answer {
        Some(v) => exists|k: int|
            0 <= k < v@.len() && #[trigger] explicit_parent_name(v@[k]@, explicit, target),
        None => false,
    }
}

/// Whether every answer that the lookup can give for the target itself (the
/// first question of a search) reports an explicitly installed parent.
pub open spec fn direct_parent_is_explicit<F: Fn(&str, bool) -> Option<Vec<String>>>(
    parents: F,
    explicit: Seq<String>,
    target: Seq<char>,
) -> bool {
    forall|x: &str, answer: Option<Vec<String>>|
        x@ == target && #[trigger] parents.ensures((x, true), answer) ==> reports_explicit_parent(
            answer,
            explicit,
            target,
        )
}

/// The names that an answer of the parents lookup reports.
pub open spec fn reported(answer: Option<Vec<String>>) -> Seq<Seq<char>> {
    match answer {
        Some(v) => texts(v@),
        None => Seq::empty(),
    }
}

/// Whether the parents lookup answers by `m`: every answer it gives for a
/// package reports the names `m` gives for it.
pub open spec fn answers_by<F: Fn(&str, bool) -> Option<Vec<String>>>(
    parents: F,
    m: spec_fn(Seq<char>) -> Seq<Seq<char>>,
) -> bool {
    forall|x: &str, first: bool, answer: Option<Vec<String>>|
        #[trigger] parents.ensures((x, first), answer) ==> reported(answer) == m(x@)
}

/// Whether `m` reports, as a parent of `u`, a package whose base is `y`.
pub open spec fn raised(m: spec_fn(Seq<char>) -> Seq<Seq<char>>, u: Seq<char>, y: Seq<char>) -> bool {
    exists|j: int| 0 <= j < m(u).len() && package_base_spec(#[trigger] m(u)[j]) == y
}

/// The packages at most `d` steps above `t` by the parents that `m`
/// reports.
pub open spec fn reach(m: spec_fn(Seq<char>) -> Seq<Seq<char>>, t: Seq<char>, d: nat) -> Set<Seq<char>>
    decreases d,
{
    if d == 0 {
        set![t]
    } else {
        let r = reach(m, t, (d - 1) as nat);
        Set::new(|y: Seq<char>| r.contains(y) || exists|u: Seq<char>| r.contains(u) && #[trigger] raised(m, u, y))
    }
}

/// The packages exactly `d` steps above `t`.
pub open spec fn fresh_at(m: spec_fn(Seq<char>) -> Seq<Seq<char>>, t: Seq<char>, d: nat) -> Set<Seq<char>> {
    if d == 0 {
        reach(m, t, 0)
    } else {
        reach(m, t, d).difference(reach(m, t, (d - 1) as nat))
    }
}

/// Whether an explicitly installed package other than `t` lies at most ten
/// steps above it.
pub open spec fn explicit_within_reach(
    m: spec_fn(Seq<char>) -> Seq<Seq<char>>,
    explicit: Seq<String>,
    t: Seq<char>,
) -> bool {
    exists|y: Seq<char>| #[trigger] reach(m, t, 10).contains(y) && y != t && contains_text(explicit, y)
}

/// Whether the packages at most ten steps above `t` fit the search's
/// budget of 64 packages.
pub open spec fn within_budget(m: spec_fn(Seq<char>) -> Seq<Seq<char>>, t: Seq<char>) -> bool {
    reach(m, t, 10).finite() && reach(m, t, 10).len() <= 64
}

pub open spec fn last_names(ps: Seq<Vec<String>>) -> Seq<Seq<char>> {
    ps.map_values(|p: Vec<String>| texts(p@).last())
}

pub open spec fn text_set(v: Seq<String>) -> Set<Seq<char>> {
    texts(v).to_set()
}

proof fn lemma_reach_grows(m: spec_fn(Seq<char>) -> Seq<Seq<char>>, t: Seq<char>, a: nat, b: nat)
    requires
        a <= b,
    ensures
        reach(m, t, a).subset_of(reach(m, t, b)),
    decreases b,
{
    if a < b {
        lemma_reach_grows(m, t, a, (b - 1) as nat);
        assert(reach(m, t, (b - 1) as nat).subset_of(reach(m, t, b)));
    }
}

proof fn lemma_raised_in_reach(m: spec_fn(Seq<char>) -> Seq<Seq<char>>, t: Seq<char>, d: nat, u: Seq<char>, j: int)
    requires
        reach(m, t, d).contains(u),
        0 <= j < m(u).len(),
    ensures
        reach(m, t, d + 1).contains(package_base_spec(m(u)[j])),
{
    assert(raised(m, u, package_base_spec(m(u)[j])));
    assert(reach(m, t, (d + 1 - 1) as nat) == reach(m, t, d));
}

proof fn lemma_push_text_set(v: Seq<String>, x: String)
    ensures
        text_set(v.push(x)) == text_set(v).insert(x@),
        texts(v.push(x)) == texts(v).push(x@),
{
    let a = texts(v.push(x));
    let b = texts(v);
    assert(a =~= b.push(x@));
    assert forall|y: Seq<char>| a.to_set().contains(y) <==> b.to_set().insert(x@).contains(y) by {
        if b.contains(y) {
            let i = choose|i: int| 0 <= i < b.len() && b[i] == y;
            assert(a[i] == y);
        }
        if a.contains(y) {
            let i = choose|i: int| 0 <= i < a.len() && a[i] == y;
            if i < b.len() {
                assert(b[i] == y);
            }
        }
        if y == x@ {
            assert(a[b.len() as int] == y);
        }
    }
    assert(a.to_set() =~= b.to_set().insert(x@));
}

proof fn lemma_budget(m: spec_fn(Seq<char>) -> Seq<Seq<char>>, t: Seq<char>, d: nat, v: Seq<String>)
    requires
        d <= 10,
        within_budget(m, t),
        text_set(v).subset_of(reach(m, t, d)),
        texts(v).no_duplicates(),
    ensures
        v.len() <= 64,
{
    lemma_reach_grows(m, t, d, 10);
    texts(v).unique_seq_to_set();
    vstd::set_lib::lemma_len_subset(text_set(v), reach(m, t, 10));
}

/// What a breadth-first search has established on level `d`: what it has
/// visited lies between the packages within `d` and within `d + 1` steps,
/// without repetition; every package exactly `d` steps up ends a path of
/// the level; the parents of the first `done` paths' ends, and the first
/// names of the current one (`extra`), were all visited; the paths of the
/// next level run through visited packages and end at each package newly
/// visited; and no visited package but the target is explicitly installed.
#[verifier::opaque]
spec fn search_level(
    m: spec_fn(Seq<char>) -> Seq<Seq<char>>,
    t: Seq<char>,
    d: nat,
    visited: Seq<String>,
    frontier: Seq<Vec<String>>,
    done: int,
    extra: Seq<Seq<char>>,
    next: Seq<Vec<String>>,
    explicit: Seq<String>,
) -> bool {
    &&& reach(m, t, d).subset_of(text_set(visited))
    &&& text_set(visited).subset_of(reach(m, t, d + 1))
    &&& texts(visited).no_duplicates()
    &&& forall|y: Seq<char>| #[trigger] fresh_at(m, t, d).contains(y) ==> last_names(frontier).contains(y)
    &&& forall|q: int, j: int|
        0 <= q < frontier.len() && 0 <= j < frontier[q]@.len() ==> reach(m, t, d).contains(
            #[trigger] frontier[q]@[j]@,
        )
    &&& forall|g: int, j: int|
        0 <= g < done && 0 <= j < m(last_names(frontier)[g]).len() ==> text_set(visited).contains(
            package_base_spec(#[trigger] m(last_names(frontier)[g])[j]),
        )
    &&& forall|j: int| 0 <= j < extra.len() ==> text_set(visited).contains(package_base_spec(#[trigger] extra[j]))
    &&& forall|q: int, j: int|
        0 <= q < next.len() && 0 <= j < next[q]@.len() ==> text_set(visited).contains(#[trigger] next[q]@[j]@)
    &&& forall|y: Seq<char>| #[trigger]
        text_set(visited).contains(y) && !reach(m, t, d).contains(y) ==> last_names(next).contains(y)
    &&& forall|y: Seq<char>| #[trigger] text_set(visited).contains(y) && y != t ==> !contains_text(explicit, y)
}

/// The state of the search at the start of level `d`.
spec fn level_start(
    m: spec_fn(Seq<char>) -> Seq<Seq<char>>,
    t: Seq<char>,
    d: nat,
    visited: Seq<String>,
    frontier: Seq<Vec<String>>,
    explicit: Seq<String>,
) -> bool {
    &&& text_set(visited) == reach(m, t, d)
    &&& texts(visited).no_duplicates()
    &&& forall|y: Seq<char>| #[trigger] fresh_at(m, t, d).contains(y) ==> last_names(frontier).contains(y)
    &&& forall|q: int, j: int|
        0 <= q < frontier.len() && 0 <= j < frontier[q]@.len() ==> reach(m, t, d).contains(
            #[trigger] frontier[q]@[j]@,
        )
    &&& forall|y: Seq<char>| #[trigger] text_set(visited).contains(y) && y != t ==> !contains_text(explicit, y)
}

proof fn lemma_level_opens(
    m: spec_fn(Seq<char>) -> Seq<Seq<char>>,
    t: Seq<char>,
    d: nat,
    visited: Seq<String>,
    frontier: Seq<Vec<String>>,
    explicit: Seq<String>,
)
    requires
        level_start(m, t, d, visited, frontier, explicit),
    ensures
        search_level(m, t, d, visited, frontier, 0, Seq::empty(), Seq::empty(), explicit),
{
    reveal(search_level);
    lemma_reach_grows(m, t, d, d + 1);
    assert forall|y: Seq<char>| #[trigger]
        text_set(visited).contains(y) && !reach(m, t, d).contains(y) implies last_names(
            Seq::<Vec<String>>::empty(),
        ).contains(y) by {}
}

proof fn lemma_path_end(
    m: spec_fn(Seq<char>) -> Seq<Seq<char>>,
    t: Seq<char>,
    d: nat,
    visited: Seq<String>,
    frontier: Seq<Vec<String>>,
    f: int,
    next: Seq<Vec<String>>,
    explicit: Seq<String>,
)
    requires
        0 <= f < frontier.len(),
        search_level(m, t, d, visited, frontier, f, m(last_names(frontier)[f]), next, explicit),
    ensures
        search_level(m, t, d, visited, frontier, f + 1, Seq::empty(), next, explicit),
{
    reveal(search_level);
    assert forall|g: int, j: int|
        0 <= g < f + 1 && 0 <= j < m(last_names(frontier)[g]).len() implies text_set(visited).contains(
            package_base_spec(#[trigger] m(last_names(frontier)[g])[j]),
        ) by {
        if g == f {
            assert(m(last_names(frontier)[f])[j] == m(last_names(frontier)[g])[j]);
        }
    }
}

proof fn lemma_path_start(
    m: spec_fn(Seq<char>) -> Seq<Seq<char>>,
    t: Seq<char>,
    d: nat,
    visited: Seq<String>,
    frontier: Seq<Vec<String>>,
    f: int,
    next: Seq<Vec<String>>,
    explicit: Seq<String>,
)
    requires
        0 <= f < frontier.len(),
        frontier[f]@.len() >= 1,
        search_level(m, t, d, visited, frontier, f, Seq::empty(), next, explicit),
    ensures
        search_level(m, t, d, visited, frontier, f, m(last_names(frontier)[f]).take(0), next, explicit),
        reach(m, t, d).contains(last_names(frontier)[f]),
        text_set(visited).subset_of(reach(m, t, d + 1)),
        texts(visited).no_duplicates(),
{
    reveal(search_level);
    assert(m(last_names(frontier)[f]).take(0) =~= Seq::<Seq<char>>::empty());
    let n = frontier[f]@.len() - 1;
    assert(last_names(frontier)[f] == frontier[f]@[n]@);
}

/// A name whose base was already visited, is the target, or lies on the
/// current path leaves the search as it was.
proof fn lemma_name_known(
    m: spec_fn(Seq<char>) -> Seq<Seq<char>>,
    t: Seq<char>,
    d: nat,
    visited: Seq<String>,
    frontier: Seq<Vec<String>>,
    f: int,
    k: int,
    next: Seq<Vec<String>>,
    explicit: Seq<String>,
)
    requires
        0 <= f < frontier.len(),
        0 <= k < m(last_names(frontier)[f]).len(),
        search_level(m, t, d, visited, frontier, f, m(last_names(frontier)[f]).take(k), next, explicit),
        ({
            let p = package_base_spec(m(last_names(frontier)[f])[k]);
            ||| p == t
            ||| text_set(visited).contains(p)
            ||| exists|i: int| 0 <= i < frontier[f]@.len() && #[trigger] frontier[f]@[i]@ == p
        }),
    ensures
        search_level(m, t, d, visited, frontier, f, m(last_names(frontier)[f]).take(k + 1), next, explicit),
{
    reveal(search_level);
    let names = m(last_names(frontier)[f]);
    let p = package_base_spec(names[k]);
    assert(reach(m, t, 0).contains(t));
    lemma_reach_grows(m, t, 0, d);
    if exists|i: int| 0 <= i < frontier[f]@.len() && #[trigger] frontier[f]@[i]@ == p {
        let i = choose|i: int| 0 <= i < frontier[f]@.len() && #[trigger] frontier[f]@[i]@ == p;
        assert(reach(m, t, d).contains(frontier[f]@[i]@));
    }
    assert(text_set(visited).contains(p));
    assert forall|j: int| 0 <= j < names.take(k + 1).len() implies text_set(visited).contains(
        package_base_spec(#[trigger] names.take(k + 1)[j]),
    ) by {
        if j < k {
            assert(names.take(k + 1)[j] == names.take(k)[j]);
        }
    }
}

/// A name whose base is newly found (neither visited nor explicitly
/// installed) is visited, and the path that it extends joins the next
/// level.
proof fn lemma_name_added(
    m: spec_fn(Seq<char>) -> Seq<Seq<char>>,
    t: Seq<char>,
    d: nat,
    visited: Seq<String>,
    frontier: Seq<Vec<String>>,
    f: int,
    k: int,
    next: Seq<Vec<String>>,
    explicit: Seq<String>,
    parent: String,
    grown: Vec<String>,
)
    requires
        0 <= f < frontier.len(),
        0 <= k < m(last_names(frontier)[f]).len(),
        search_level(m, t, d, visited, frontier, f, m(last_names(frontier)[f]).take(k), next, explicit),
        reach(m, t, d).contains(last_names(frontier)[f]),
        parent@ == package_base_spec(m(last_names(frontier)[f])[k]),
        parent@ != t,
        !text_set(visited).contains(parent@),
        !contains_text(explicit, parent@),
        texts(grown@) == texts(frontier[f]@).push(parent@),
    ensures
        search_level(
            m,
            t,
            d,
            visited.push(parent),
            frontier,
            f,
            m(last_names(frontier)[f]).take(k + 1),
            next.push(grown),
            explicit,
        ),
{
    reveal(search_level);
    let names = m(last_names(frontier)[f]);
    let nv = visited.push(parent);
    let nn = next.push(grown);
    lemma_push_text_set(visited, parent);
    lemma_raised_in_reach(m, t, d, last_names(frontier)[f], k);
    assert(!texts(visited).contains(parent@));
    assert(texts(nv).no_duplicates());
    assert forall|j: int| 0 <= j < names.take(k + 1).len() implies text_set(nv).contains(
        package_base_spec(#[trigger] names.take(k + 1)[j]),
    ) by {
        if j < k {
            assert(names.take(k + 1)[j] == names.take(k)[j]);
        }
    }
    assert forall|q: int, j: int| 0 <= q < nn.len() && 0 <= j < nn[q]@.len() implies text_set(nv).contains(
        #[trigger] nn[q]@[j]@,
    ) by {
        if q < next.len() {
            assert(nn[q] == next[q]);
            assert(text_set(visited).contains(next[q]@[j]@));
        } else {
            assert(nn[q] == grown);
            assert(texts(grown@).len() == grown@.len());
            assert(texts(grown@)[j] == nn[q]@[j]@);
            if j < frontier[f]@.len() {
                assert(texts(frontier[f]@)[j] == frontier[f]@[j]@);
                assert(reach(m, t, d).contains(frontier[f]@[j]@));
                assert(text_set(visited).contains(frontier[f]@[j]@));
            } else {
                assert(nn[q]@[j]@ == parent@);
            }
        }
    }
    assert(last_names(nn) =~= last_names(next).push(parent@)) by {
        assert(texts(grown@).last() == parent@);
    }
    assert forall|y: Seq<char>| #[trigger]
        text_set(nv).contains(y) && !reach(m, t, d).contains(y) implies last_names(nn).contains(y) by {
        if y == parent@ {
            assert(last_names(nn)[next.len() as int] == y);
        } else {
            let i = choose|i: int| 0 <= i < last_names(next).len() && last_names(next)[i] == y;
            assert(last_names(nn)[i] == y);
        }
    }
}

/// After the last path of level `d`, what was visited is exactly what lies
/// within `d + 1` steps, and the next level starts.
proof fn lemma_level_closes(
    m: spec_fn(Seq<char>) -> Seq<Seq<char>>,
    t: Seq<char>,
    d: nat,
    visited: Seq<String>,
    frontier: Seq<Vec<String>>,
    next: Seq<Vec<String>>,
    explicit: Seq<String>,
)
    requires
        search_level(m, t, d, visited, frontier, frontier.len() as int, Seq::empty(), next, explicit),
    ensures
        level_start(m, t, d + 1, visited, next, explicit),
{
    reveal(search_level);
    assert(reach(m, t, (d + 1 - 1) as nat) == reach(m, t, d));
    assert forall|y: Seq<char>| reach(m, t, d + 1).contains(y) implies text_set(visited).contains(y) by {
        if !reach(m, t, d).contains(y) {
            let w = choose|w: Seq<char>| reach(m, t, d).contains(w) && #[trigger] raised(m, w, y);
            let j = choose|j: int| 0 <= j < m(w).len() && package_base_spec(#[trigger] m(w)[j]) == y;
            if d > 0 && reach(m, t, (d - 1) as nat).contains(w) {
                assert(raised(m, w, y));
                assert(reach(m, t, d).contains(y));
            } else {
                assert(fresh_at(m, t, d).contains(w));
                let g = choose|g: int| 0 <= g < last_names(frontier).len() && last_names(frontier)[g] == w;
                assert(m(last_names(frontier)[g])[j] == m(w)[j]);
            }
        }
    }
    assert(text_set(visited) =~= reach(m, t, d + 1));
    assert forall|y: Seq<char>| #[trigger] fresh_at(m, t, d + 1).contains(y) implies last_names(next).contains(y) by {
        assert(text_set(visited).contains(y));
    }
}

/// Searches upwards from `target` for an explicitly installed package,
/// breadth first, at most ten steps deep and over at most about 64
/// packages, skipping cycles. A chain that is found runs from that package
/// down to the target, each package reported as a parent of the next. A
/// chain is always found when the target's own parents include an
/// explicitly installed package; and, when the lookup answers the same for
/// a package every time, whenever an explicitly installed package lies at
/// most ten steps above the target and the packages within those ten steps
/// number at most 64.
pub fn root_path<F: Fn(&str, bool) -> Option<Vec<String>>>(
    target: &str,
    explicit: &Vec<String>,
    parents: F,
) -> (r: Option<Vec<String>>)
    requires
        forall|x: &str, first: bool| #[trigger] parents.requires((x, first)),
    ensures
        match r {
            Some(path) => {
                &&& path@.len() >= 2
                &&& contains_text(explicit@, path@[0]@)
                &&& upward_chain(parents, texts(path@).reverse(), target@)
            },
            None => true,
        },
        direct_parent_is_explicit(parents, explicit@, target@) ==> r is Some,
        forall|m: spec_fn(Seq<char>) -> Seq<Seq<char>>|
            answers_by(parents, m) && #[trigger] explicit_within_reach(m, explicit@, target@)
                && within_budget(m, target@) ==> r is Some,
{
    let ghost t = target@;
    let ghost m = choose|m: spec_fn(Seq<char>) -> Seq<Seq<char>>|
        answers_by(parents, m) && #[trigger] explicit_within_reach(m, explicit@, t) && within_budget(m, t);
    let ghost good = answers_by(parents, m) && explicit_within_reach(m, explicit@, t) && within_budget(m, t);
    let mut first_path: Vec<String> = Vec::new();
    first_path.push(owned(target));
    assert(texts(first_path@) =~= seq![target@]);
    let mut frontier: Vec<Vec<String>> = Vec::new();
    frontier.push(first_path);
    let mut visited: Vec<String> = Vec::new();
    visited.push(owned(target));
    proof {
        assert(texts(visited@) =~= seq![t]);
        assert(texts(visited@)[0] == t);
        assert forall|y: Seq<char>| text_set(visited@).contains(y) <==> set![t].contains(y) by {
            if y == t {
                assert(texts(visited@)[0] == y);
            }
        }
        assert(text_set(visited@) =~= set![t]);
        assert(reach(m, t, 0) == set![t]);
        assert(last_names(frontier@) =~= seq![t]);
        assert(last_names(frontier@)[0] == t);
    }
    let mut depth: usize = 0;
    while depth < 10
        invariant
            forall|x: &str, first: bool| #[trigger] parents.requires((x, first)),
            depth <= 10,
            t == target@,
            good == (answers_by(parents, m) && explicit_within_reach(m, explicit@, t) && within_budget(m, t)),
            forall|q: int|
                0 <= q < frontier@.len() ==> upward_chain(parents, texts(#[trigger] frontier@[q]@), t),
            depth == 0 ==> frontier@.len() == 1 && texts(frontier@[0]@) == seq![t] && visited@.len() == 1,
            depth > 0 ==> !direct_parent_is_explicit(parents, explicit@, t),
            good ==> level_start(m, t, depth as nat, visited@, frontier@, explicit@),
        decreases 10 - depth,
    {
        let mut next: Vec<Vec<String>> = Vec::new();
        let ghost d = depth as nat;
        proof {
            if good {
                lemma_level_opens(m, t, d, visited@, frontier@, explicit@);
            }
        }
        for f in 0..frontier.len()
            invariant
                forall|x: &str, first: bool| #[trigger] parents.requires((x, first)),
                depth < 10,
                d == depth as nat,
                t == target@,
                good == (answers_by(parents, m) && explicit_within_reach(m, explicit@, t) && within_budget(m, t)),
                forall|q: int|
                    0 <= q < frontier@.len() ==> upward_chain(parents, texts(#[trigger] frontier@[q]@), t),
                forall|q: int|
                    0 <= q < next@.len() ==> upward_chain(parents, texts(#[trigger] next@[q]@), t),
                depth == 0 ==> frontier@.len() == 1 && texts(frontier@[0]@) == seq![t],
                depth == 0 && f == 0 ==> visited@.len() == 1,
                depth > 0 || f > 0 ==> !direct_parent_is_explicit(parents, explicit@, t),
                good ==> search_level(m, t, d, visited@, frontier@, f as int, Seq::empty(), next@, explicit@),
        {
            let path = copy_path(&frontier[f]);
            let ghost first_round = depth == 0 && f == 0;
            let ghost u = last_names(frontier@)[f as int];
            assert(upward_chain(parents, texts(frontier@[f as int]@), t));
            proof {
                if good {
                    lemma_path_start(m, t, d, visited@, frontier@, f as int, next@, explicit@);
                }
            }
            if visited.len() > 64 {
                proof {
                    if good {
                        lemma_budget(m, t, d + 1, visited@);
                    }
                }
            } else {
                let ghost chain = texts(path@);
                let current = path[path.len() - 1].as_str();
                let first = path.len() == 1;
                let answer = parents(current, first);
                let ghost answered = answer;
                let names: Vec<String> = match answer {
                    Some(v) => v,
                    None => Vec::new(),
                };
                proof {
                    assert(chain == texts(frontier@[f as int]@));
                    assert(current@ == u);
                    if good {
                        assert(reported(answered) == m(current@));
                        assert(texts(names@) =~= m(u));
                    }
                }
                for k in 0..names.len()
                    invariant
                        forall|x: &str, first: bool| #[trigger] parents.requires((x, first)),
                        depth < 10,
                        d == depth as nat,
                        t == target@,
                        f < frontier@.len(),
                        good == (answers_by(parents, m) && explicit_within_reach(m, explicit@, t)
                            && within_budget(m, t)),
                        forall|q: int|
                            0 <= q < frontier@.len() ==> upward_chain(parents, texts(#[trigger] frontier@[q]@), t),
                        forall|q: int|
                            0 <= q < next@.len() ==> upward_chain(parents, texts(#[trigger] next@[q]@), t),
                        chain == texts(path@),
                        chain == texts(frontier@[f as int]@),
                        upward_chain(parents, chain, t),
                        chain.len() >= 1,
                        u == last_names(frontier@)[f as int],
                        current@ == chain.last(),
                        current@ == u,
                        depth == 0 ==> frontier@.len() == 1 && texts(frontier@[0]@) == seq![t],
                        depth > 0 || f > 0 ==> !direct_parent_is_explicit(parents, explicit@, t),
                        first_round == (depth == 0 && f == 0),
                        first_round ==> chain == seq![t] && first,
                        first_round ==> forall|j: int|
                            0 <= j < k ==> !explicit_parent_name(#[trigger] names@[j]@, explicit@, t),
                        parents.ensures((current, first), answered),
                        answered matches Some(v) ==> v@ == names@,
                        answered is None ==> names@.len() == 0,
                        good ==> texts(names@) == m(u),
                        good ==> reach(m, t, d).contains(u),
                        good ==> search_level(m, t, d, visited@, frontier@, f as int, m(u).take(k as int), next@, explicit@),
                {
                    let parent = package_base(names[k].as_str());
                    proof {
                        if good {
                            assert(names@[k as int]@ == m(u)[k as int]);
                        }
                    }
                    let skip = str_eq(parent.as_str(), target) || has_text(&path, parent.as_str());
                    if skip {
                        proof {
                            if good {
                                if parent@ != t {
                                    let i = choose|i: int| 0 <= i < path@.len() && #[trigger] path@[i]@ == parent@;
                                    assert(frontier@[f as int]@[i]@ == parent@) by {
                                        assert(texts(path@)[i] == texts(frontier@[f as int]@)[i]);
                                    }
                                }
                                lemma_name_known(m, t, d, visited@, frontier@, f as int, k as int, next@, explicit@);
                            }
                        }
                    } else {
                        let mut next_path = copy_path(&path);
                        let ghost grown = chain.push(parent@);
                        next_path.push(parent.clone());
                        proof {
                            assert(texts(next_path@) =~= grown);
                            assert(parent_reported(parents, chain.last(), parent@)) by {
                                let v = answered->Some_0;
                                assert(v@[k as int]@ == names@[k as int]@);
                                assert(package_base_spec(v@[k as int]@) == parent@);
                            }
                            assert forall|j: int| 0 <= j < grown.len() - 1 implies parent_reported(
                                parents,
                                #[trigger] grown[j],
                                grown[j + 1],
                            ) by {
                                if j < chain.len() - 1 {
                                    assert(grown[j] == chain[j]);
                                    assert(grown[j + 1] == chain[j + 1]);
                                } else {
                                    assert(grown[j] == chain.last());
                                }
                            }
                            assert(upward_chain(parents, grown, t));
                        }
                        if has_text(explicit, parent.as_str()) {
                            let found = reversed(&next_path);
                            proof {
                                assert(texts(found@).reverse() =~= grown);
                                assert(texts(found@)[0] == grown.last());
                                assert(found@[0]@ == texts(found@)[0]);
                            }
                            return Some(found);
                        }
                        if !has_text(&visited, parent.as_str()) {
                            proof {
                                if good {
                                    assert(!text_set(visited@).contains(parent@));
                                    lemma_name_added(
                                        m,
                                        t,
                                        d,
                                        visited@,
                                        frontier@,
                                        f as int,
                                        k as int,
                                        next@,
                                        explicit@,
                                        parent,
                                        next_path,
                                    );
                                }
                            }
                            visited.push(parent);
                            next.push(next_path);
                        } else {
                            proof {
                                if good {
                                    let i = choose|i: int| 0 <= i < visited@.len() && #[trigger] visited@[i]@ == parent@;
                                    assert(texts(visited@)[i] == parent@);
                                    assert(text_set(visited@).contains(parent@));
                                    lemma_name_known(m, t, d, visited@, frontier@, f as int, k as int, next@, explicit@);
                                }
                            }
                        }
                    }
                }
                proof {
                    if first_round && direct_parent_is_explicit(parents, explicit@, t) {
                        assert(reports_explicit_parent(answered, explicit@, t));
                        let v = answered->Some_0;
                        let kk = choose|kk: int|
                            0 <= kk < v@.len() && #[trigger] explicit_parent_name(v@[kk]@, explicit@, t);
                        assert(names@[kk]@ == v@[kk]@);
                    }
                    if good {
                        assert(m(u).take(names@.len() as int) =~= m(u));
                        lemma_path_end(m, t, d, visited@, frontier@, f as int, next@, explicit@);
                    }
                }
            }
        }
        proof {
            if good {
                lemma_level_closes(m, t, d, visited@, frontier@, next@, explicit@);
            }
        }
        frontier = next;
        depth = depth + 1;
    }
    proof {
        if good {
            let y = choose|y: Seq<char>| #[trigger] reach(m, t, 10).contains(y) && y != t && contains_text(explicit@, y);
            assert(text_set(visited@).contains(y));
        }
    }
    None
}

// ---------------------------------------------------------------------------
// DNF transactions and groups
// ---------------------------------------------------------------------------

/// What DNF's history records of the transaction that installed a package.
pub struct DnfRecord {
    pub id: String,
    pub command: String,
    pub reason: String,
    pub repository: String,
    pub groups: Vec<String>,
    pub environments: Vec<String>,
}

/// The recorded command, or a placeholder when none was recorded.
pub open spec fn command_or_unknown(command: Seq<char>) -> Seq<char> {
    if command.len() == 0 {
        "unknown command"@
    } else {
        command
    }
}

/// `DNF transaction ID: command`, with the recorded reason and a named
/// (not `@`-prefixed) source repository when known.
pub open spec fn dnf_history_spec(r: DnfRecord) -> Seq<char> {
    let repository = if r.repository@.len() > 0 && r.repository@[0] != '@' {
        "; source repository: "@ + r.repository@
    } else {
        Seq::empty()
    };
    let detail = if r.reason@.len() == 0 {
        Seq::empty()
    } else {
        " (recorded reason: "@ + r.reason@ + repository + ")"@
    };
    "DNF transaction "@ + r.id@ + ": "@ + compact_spec(command_or_unknown(r.command@)) + detail
}

fn command_text(command: &String) -> (r: String)
    ensures
        r@ == compact_spec(command_or_unknown(command@)),
{
    if command.as_str().is_empty() {
        compact_command("unknown command")
    } else {
        compact_command(command.as_str())
    }
}

pub fn dnf_history_text(record: Option<&DnfRecord>) -> (r: Option<String>)
    ensures
        match record {
            Some(rec) => r is Some && r->Some_0@ == dnf_history_spec(*rec),
            None => r is None,
        },
{
    let record = match record {
        None => {
            return None;
        },
        Some(rec) => rec,
    };
    let mut out = owned("DNF transaction ");
    push_str(&mut out, record.id.as_str());
    push_str(&mut out, ": ");
    let command = command_text(&record.command);
    push_str(&mut out, command.as_str());
    if !record.reason.as_str().is_empty() {
        push_str(&mut out, " (recorded reason: ");
        push_str(&mut out, record.reason.as_str());
        let rc = chars_of(record.repository.as_str());
        if rc.len() > 0 && rc[0] != '@' {
            push_str(&mut out, "; source repository: ");
            push_str(&mut out, record.repository.as_str());
        }
        push_str(&mut out, ")");
    }
    assert(out@ =~= dnf_history_spec(*record));
    Some(out)
}

/// An installed DNF group or environment: its id, its name and its
/// members (packages of a group, groups of an environment).
pub struct InventoryEntry {
    pub id: String,
    pub name: String,
    pub members: Vec<String>,
}

pub open spec fn member_keys(groups: bool) -> Seq<Seq<char>> {
    if groups {
        seq![
            "Mandatory packages"@,
            "Default packages"@,
            "Optional packages"@,
            "Conditional packages"@,
        ]
    } else {
        seq!["Required groups"@, "Optional groups"@]
    }
}

/// The words of a field, without lone colons.
pub open spec fn member_words(ws: Seq<Seq<char>>) -> Seq<Seq<char>>
    decreases ws.len(),
{
    if ws.len() == 0 {
        ws
    } else if ws.last() == ":"@ {
        member_words(ws.drop_last())
    } else {
        member_words(ws.drop_last()).push(ws.last())
    }
}

pub open spec fn members_of(fields: FieldList, keys: Seq<Seq<char>>) -> Seq<Seq<char>>
    decreases keys.len(),
{
    if keys.len() == 0 {
        Seq::empty()
    } else {
        members_of(fields, keys.drop_last()) + match field_value(fields, keys.last()) {
            Some(v) => member_words(words_spec(v)),
            None => Seq::empty(),
        }
    }
}

pub open spec fn inventory_entry(fields: FieldList, groups: bool) -> Option<(Seq<char>, Seq<char>, Seq<Seq<char>>)> {
    match field_value(fields, "Id"@) {
        None => None,
        Some(id) => Some(
            (
                id,
                match field_value(fields, "Name"@) {
                    Some(n) => n,
                    None => id,
                },
                members_of(fields, member_keys(groups)),
            ),
        ),
    }
}

pub open spec fn inventory_of(records: Seq<FieldList>, groups: bool) -> Seq<(Seq<char>, Seq<char>, Seq<Seq<char>>)>
    decreases records.len(),
{
    if records.len() == 0 {
        Seq::empty()
    } else {
        match inventory_entry(records.last(), groups) {
            Some(e) => inventory_of(records.drop_last(), groups).push(e),
            None => inventory_of(records.drop_last(), groups),
        }
    }
}

pub open spec fn entry_view(e: InventoryEntry) -> (Seq<char>, Seq<char>, Seq<Seq<char>>) {
    (e.id@, e.name@, texts(e.members@))
}

pub open spec fn entries_view(v: Seq<InventoryEntry>) -> Seq<(Seq<char>, Seq<char>, Seq<Seq<char>>)> {
    v.map_values(|e: InventoryEntry| entry_view(e))
}

fn push_member_words(out: &mut Vec<String>, value: &str)
    ensures
        texts(final(out)@) == texts(old(out)@) + member_words(words_spec(value@)),
{
    let cs = chars_of(value);
    let ws = words_of(&cs);
    let ghost wv = deep(ws@);
    let ghost start = texts(out@);
    assert(wv.take(0) =~= Seq::<Seq<char>>::empty());
    assert(texts(out@) =~= start + member_words(wv.take(0)));
    for i in 0..ws.len()
        invariant
            wv == deep(ws@),
            texts(out@) == start + member_words(wv.take(i as int)),
    {
        proof {
            assert(wv.take(i + 1).drop_last() =~= wv.take(i as int));
            assert(wv.take(i + 1).last() == ws@[i as int]@);
        }
        let colon = chars_of(":");
        if !chars_eq(&ws[i], &colon) {
            let ghost before = out@;
            out.push(string_of(&ws[i]));
            assert(texts(out@) =~= texts(before).push(ws@[i as int]@));
        }
    }
    assert(wv.take(ws@.len() as int) =~= wv);
}

/// The installed groups (or environments) described by `dnf5 group info`
/// (or `environment info`) output, with their members.
pub fn group_inventory(text: &str, groups: bool) -> (r: Vec<InventoryEntry>)
    ensures
        entries_view(r@) == inventory_of(key_records_spec(text@), groups),
{
    let records = parse_key_records(text);
    let ghost rs = records_view(records@);
    let mut out: Vec<InventoryEntry> = Vec::new();
    assert(rs.take(0) =~= Seq::<FieldList>::empty());
    assert(entries_view(out@) =~= Seq::<(Seq<char>, Seq<char>, Seq<Seq<char>>)>::empty());
    for i in 0..records.len()
        invariant
            rs == records_view(records@),
            entries_view(out@) == inventory_of(rs.take(i as int), groups),
    {
        let record = &records[i];
        proof {
            assert(rs.take(i + 1).drop_last() =~= rs.take(i as int));
            assert(rs.take(i + 1).last() == record_view(*record));
        }
        match record.get("Id") {
            None => {},
            Some(id) => {
                let name = match record.get("Name") {
                    Some(n) => n,
                    None => id.clone(),
                };
                let keys: Vec<&str> = if groups {
                    let mut k = Vec::new();
                    k.push("Mandatory packages");
                    k.push("Default packages");
                    k.push("Optional packages");
                    k.push("Conditional packages");
                    k
                } else {
                    let mut k = Vec::new();
                    k.push("Required groups");
                    k.push("Optional groups");
                    k
                };
                let ghost kv = member_keys(groups);
                assert(keys@.map_values(|k: &str| k@) =~= kv);
                let mut members: Vec<String> = Vec::new();
                assert(texts(members@) =~= members_of(record_view(*record), kv.take(0)));
                for j in 0..keys.len()
                    invariant
                        keys@.map_values(|k: &str| k@) == kv,
                        texts(members@) == members_of(record_view(*record), kv.take(j as int)),
                {
                    proof {
                        assert(kv.take(j + 1).drop_last() =~= kv.take(j as int));
                        assert(kv.take(j + 1).last() == keys@[j as int]@);
                    }
                    match record.get(keys[j]) {
                        Some(v) => push_member_words(&mut members, v.as_str()),
                        None => {
                            assert(texts(members@) =~= texts(members@) + Seq::<Seq<char>>::empty());
                        },
                    }
                }
                assert(kv.take(keys@.len() as int) =~= kv);
                let ghost before = out@;
                out.push(InventoryEntry { id, name, members });
                assert(entries_view(out@) =~= entries_view(before).push(entry_view(out@.last())));
            },
        }
    }
    assert(rs.take(records@.len() as int) =~= rs);
    out
}

/// The groups of the transaction that list the target among their packages.
pub open spec fn memberships(
    inventory: Seq<(Seq<char>, Seq<char>, Seq<Seq<char>>)>,
    groups: Seq<Seq<char>>,
    target: Seq<char>,
) -> Seq<(Seq<char>, Seq<char>, Seq<Seq<char>>)>
    decreases inventory.len(),
{
    if inventory.len() == 0 {
        Seq::empty()
    } else {
        let rest = memberships(inventory.drop_last(), groups, target);
        let e = inventory.last();
        if groups.contains(e.0) && e.2.contains(target) {
            rest.push(e)
        } else {
            rest
        }
    }
}

/// The environments of the transaction that include the group.
pub open spec fn environment_matches(
    inventory: Seq<(Seq<char>, Seq<char>, Seq<Seq<char>>)>,
    environments: Seq<Seq<char>>,
    group: Seq<char>,
) -> Seq<(Seq<char>, Seq<char>, Seq<Seq<char>>)>
    decreases inventory.len(),
{
    if inventory.len() == 0 {
        Seq::empty()
    } else {
        let rest = environment_matches(inventory.drop_last(), environments, group);
        let e = inventory.last();
        if environments.contains(e.0) && e.2.contains(group) {
            rest.push(e)
        } else {
            rest
        }
    }
}

/// Why a group member is installed: the one group of its transaction that
/// lists it, reached through the transaction's one environment that
/// includes that group, and the transaction itself.
pub open spec fn group_reason_spec(
    target: Seq<char>,
    record: Option<DnfRecord>,
    groups: Seq<(Seq<char>, Seq<char>, Seq<Seq<char>>)>,
    environments: Seq<(Seq<char>, Seq<char>, Seq<Seq<char>>)>,
) -> Seq<char> {
    match record {
        None => "installed as part of a package group"@,
        Some(r) => {
            let transaction = "DNF transaction "@ + r.id@ + ": "@ + compact_spec(
                command_or_unknown(r.command@),
            );
            let ms = memberships(groups, texts(r.groups@), target);
            if ms.len() != 1 {
                "installed as part of a package group; "@ + transaction
            } else {
                let (gid, gname, _) = ms[0];
                let envs = environment_matches(environments, texts(r.environments@), gid);
                let group = gname + " ("@ + gid + ")"@;
                let cause = if envs.len() == 1 {
                    let env = envs[0].1;
                    let named = if "environment"@.is_suffix_of(ascii_lower_seq(env)) {
                        env
                    } else {
                        env + " Environment"@
                    };
                    "installed through "@ + named + " → "@ + group
                } else {
                    "installed as part of "@ + group
                };
                cause + "; "@ + transaction
            }
        },
    }
}

fn texts_contain(v: &Vec<String>, s: &str) -> (r: bool)
    ensures
        r == texts(v@).contains(s@),
{
    for i in 0..v.len()
        invariant
            forall|j: int| 0 <= j < i ==> #[trigger] v@[j]@ != s@,
    {
        if str_eq(v[i].as_str(), s) {
            assert(texts(v@)[i as int] == s@);
            return true;
        }
    }
    assert forall|j: int| 0 <= j < texts(v@).len() implies texts(v@)[j] != s@ by {
        assert(texts(v@)[j] == v@[j]@);
    }
    false
}

fn filter_entries(
    inventory: &Vec<InventoryEntry>,
    wanted: &Vec<String>,
    member: &str,
    groups_side: bool,
) -> (r: Vec<usize>)
    ensures
        r@.len() <= inventory@.len(),
        forall|t: int| 0 <= t < r@.len() ==> r@[t] < inventory@.len(),
        r@.map_values(|i: usize| entry_view(inventory@[i as int])) == if groups_side {
            memberships(entries_view(inventory@), texts(wanted@), member@)
        } else {
            environment_matches(entries_view(inventory@), texts(wanted@), member@)
        },
{
    let ghost iv = entries_view(inventory@);
    let mut out: Vec<usize> = Vec::new();
    assert(iv.take(0) =~= Seq::<(Seq<char>, Seq<char>, Seq<Seq<char>>)>::empty());
    for i in 0..inventory.len()
        invariant
            iv == entries_view(inventory@),
            out@.len() <= i,
            forall|t: int| 0 <= t < out@.len() ==> out@[t] < i,
            out@.map_values(|k: usize| entry_view(inventory@[k as int])) == if groups_side {
                memberships(iv.take(i as int), texts(wanted@), member@)
            } else {
                environment_matches(iv.take(i as int), texts(wanted@), member@)
            },
    {
        proof {
            assert(iv.take(i + 1).drop_last() =~= iv.take(i as int));
            assert(iv.take(i + 1).last() == entry_view(inventory@[i as int]));
        }
        let e = &inventory[i];
        if texts_contain(wanted, e.id.as_str()) && texts_contain(&e.members, member) {
            let ghost before = out@;
            out.push(i);
            assert(out@.map_values(|k: usize| entry_view(inventory@[k as int])) =~= before.map_values(
                |k: usize| entry_view(inventory@[k as int]),
            ).push(entry_view(inventory@[i as int])));
        }
    }
    assert(iv.take(inventory@.len() as int) =~= iv);
    out
}

/// Why a package installed by a DNF group is installed.
pub fn dnf_group_reason(
    target: &str,
    record: Option<&DnfRecord>,
    groups: &Vec<InventoryEntry>,
    environments: &Vec<InventoryEntry>,
) -> (r: String)
    ensures
        r@ == group_reason_spec(
            target@,
            match record {
                Some(rec) => Some(*rec),
                None => None,
            },
            entries_view(groups@),
            entries_view(environments@),
        ),
{
    let record = match record {
        None => {
            return owned("installed as part of a package group");
        },
        Some(rec) => rec,
    };
    let mut transaction = owned("DNF transaction ");
    push_str(&mut transaction, record.id.as_str());
    push_str(&mut transaction, ": ");
    let command = command_text(&record.command);
    push_str(&mut transaction, command.as_str());
    let found = filter_entries(groups, &record.groups, target, true);
    if found.len() != 1 {
        let mut out = owned("installed as part of a package group; ");
        push_str(&mut out, transaction.as_str());
        return out;
    }
    let g = &groups[found[0]];
    assert(entry_view(*g) == memberships(entries_view(groups@), texts(record.groups@), target@)[0]);
    let envs = filter_entries(environments, &record.environments, g.id.as_str(), false);
    let mut group = g.name.clone();
    push_str(&mut group, " (");
    push_str(&mut group, g.id.as_str());
    push_str(&mut group, ")");
    let mut cause: String;
    if envs.len() == 1 {
        let e = &environments[envs[0]];
        assert(entry_view(*e) == environment_matches(
            entries_view(environments@),
            texts(record.environments@),
            g.id@,
        )[0]);
        let mut env = e.name.clone();
        let ec = chars_of(env.as_str());
        let lower = ascii_lower_chars(&ec);
        if !ends_with_chars(&lower, &chars_of("environment")) {
            push_str(&mut env, " Environment");
        }
        cause = owned("installed through ");
        push_str(&mut cause, env.as_str());
        push_str(&mut cause, " → ");
        push_str(&mut cause, group.as_str());
    } else {
        cause = owned("installed as part of ");
        push_str(&mut cause, group.as_str());
    }
    push_str(&mut cause, "; ");
    push_str(&mut cause, transaction.as_str());
    cause
}

// ---------------------------------------------------------------------------
// Logs and installed-package databases
// ---------------------------------------------------------------------------

/// The trimmed `|`-separated fields of a line.
pub open spec fn bar_fields(line: Seq<char>) -> Seq<Seq<char>> {
    split_on(line, '|').map_values(|f: Seq<char>| trim_spec(f))
}

fn bar_fields_of(line: &Vec<char>) -> (r: Vec<Vec<char>>)
    ensures
        deep(r@) == bar_fields(line@),
{
    let parts = split_chars(line, '|');
    let ghost ps = deep(parts@);
    let mut out: Vec<Vec<char>> = Vec::new();
    for i in 0..parts.len()
        invariant
            ps == deep(parts@),
            deep(out@) == ps.take(i as int).map_values(|f: Seq<char>| trim_spec(f)),
    {
        let ghost before = deep(out@);
        out.push(trim_chars(&parts[i]));
        assert(deep(out@) =~= before.push(trim_spec(parts@[i as int]@)));
        assert(ps.take(i + 1).map_values(|f: Seq<char>| trim_spec(f)) =~= ps.take(i as int).map_values(
            |f: Seq<char>| trim_spec(f),
        ).push(trim_spec(ps[i as int])));
    }
    assert(ps.take(parts@.len() as int) =~= ps);
    out
}

/// The last install of `target` in Zypper's history, unless a later entry
/// removed it.
pub open spec fn zypper_scan(lines: Seq<Seq<char>>, target: Seq<char>) -> Option<Seq<char>>
    decreases lines.len(),
{
    if lines.len() == 0 {
        None
    } else {
        let state = zypper_scan(lines.drop_last(), target);
        let line = lines.last();
        let fields = bar_fields(line);
        if (line.len() > 0 && line[0] == '#') || fields.len() < 3 || fields[2] != target {
            state
        } else if fields[1] == "install"@ {
            Some("Zypper history: installed "@ + target + " on "@ + fields[0])
        } else if fields[1] == "remove"@ {
            None
        } else {
            state
        }
    }
}

pub fn zypper_history(text: &str, target: &str) -> (r: Option<String>)
    ensures
        match r {
            Some(s) => zypper_scan(lines_spec(text@), target@) == Some(s@),
            None => zypper_scan(lines_spec(text@), target@) is None,
        },
{
    let cs = chars_of(text);
    let lines = lines_of(&cs);
    let ghost ls = deep(lines@);
    let mut state: Option<String> = None;
    assert(ls.take(0) =~= Seq::<Seq<char>>::empty());
    for i in 0..lines.len()
        invariant
            ls == deep(lines@),
            match state {
                Some(s) => zypper_scan(ls.take(i as int), target@) == Some(s@),
                None => zypper_scan(ls.take(i as int), target@) is None,
            },
    {
        let line = &lines[i];
        proof {
            assert(ls.take(i + 1).drop_last() =~= ls.take(i as int));
            assert(ls.take(i + 1).last() == line@);
        }
        let fields = bar_fields_of(line);
        let comment = line.len() > 0 && line[0] == '#';
        if !comment && fields.len() >= 3 {
            assert(deep(fields@)[2] == fields@[2]@);
            assert(deep(fields@)[1] == fields@[1]@);
            assert(deep(fields@)[0] == fields@[0]@);
            let name = string_of(&fields[2]);
            if str_eq(name.as_str(), target) {
                let action = string_of(&fields[1]);
                if str_eq(action.as_str(), "install") {
                    let mut message = owned("Zypper history: installed ");
                    push_str(&mut message, target);
                    push_str(&mut message, " on ");
                    push_chars(&mut message, &fields[0]);
                    state = Some(message);
                } else if str_eq(action.as_str(), "remove") {
                    state = None;
                }
            }
        }
    }
    assert(ls.take(lines@.len() as int) =~= ls);
    state
}

/// The trimmed non-blank lines of a successful run.
pub open spec fn command_lines_spec(result: CommandResult) -> Option<Seq<Seq<char>>> {
    if result.status == CommandStatus::Success {
        Some(nonblank_lines(lines_spec(result.stdout@)))
    } else {
        None
    }
}

pub fn command_lines(result: &CommandResult) -> (r: Option<Vec<String>>)
    ensures
        match r {
            Some(v) => command_lines_spec(*result) == Some(texts(v@)),
            None => command_lines_spec(*result) is None,
        },
{
    if !result.ok() {
        return None;
    }
    let cs = chars_of(result.stdout.as_str());
    let lines = lines_of(&cs);
    let ghost ls = deep(lines@);
    let mut out: Vec<String> = Vec::new();
    assert(ls.take(0) =~= Seq::<Seq<char>>::empty());
    assert(texts(out@) =~= Seq::<Seq<char>>::empty());
    for i in 0..lines.len()
        invariant
            ls == deep(lines@),
            texts(out@) == nonblank_lines(ls.take(i as int)),
    {
        proof {
            assert(ls.take(i + 1).drop_last() =~= ls.take(i as int));
            assert(ls.take(i + 1).last() == lines@[i as int]@);
        }
        let t = trim_chars(&lines[i]);
        if t.len() > 0 {
            let ghost before = out@;
            out.push(string_of(&t));
            assert(texts(out@) =~= texts(before).push(t@));
        }
    }
    assert(ls.take(lines@.len() as int) =~= ls);
    Some(out)
}

/// The package bases that APT marks as automatically installed, from
/// `apt-mark showauto`.
pub fn apt_auto_names(result: &CommandResult) -> (r: Option<Vec<String>>)
    ensures
        match r {
            Some(v) => command_lines_spec(*result) is Some && texts(v@) == command_lines_spec(
                *result,
            )->Some_0.map_values(|n: Seq<char>| package_base_spec(n)),
            None => command_lines_spec(*result) is None,
        },
{
    let lines = match command_lines(result) {
        None => {
            return None;
        },
        Some(v) => v,
    };
    let mut out: Vec<String> = Vec::new();
    for i in 0..lines.len()
        invariant
            texts(out@) == texts(lines@).take(i as int).map_values(
                |n: Seq<char>| package_base_spec(n),
            ),
    {
        let ghost before = out@;
        out.push(package_base(lines[i].as_str()));
        assert(texts(out@) =~= texts(before).push(package_base_spec(lines@[i as int]@)));
        assert(texts(lines@).take(i + 1).map_values(|n: Seq<char>| package_base_spec(n))
            =~= texts(lines@).take(i as int).map_values(|n: Seq<char>| package_base_spec(n)).push(
            package_base_spec(lines@[i as int]@),
        ));
    }
    assert(texts(lines@).take(lines@.len() as int) =~= texts(lines@));
    Some(out)
}


/// A package's install reason as DNF records it.
pub struct DnfReason {
    pub name: String,
    pub role: Role,
    pub repository: String,
}

/// The role a DNF reason names.
pub open spec fn reason_role(reason: Seq<char>) -> Role {
    let lower = ascii_lower_seq(reason);
    if lower == "user"@ {
        Role::Explicit
    } else if lower == "external"@ || lower == "external user"@ {
        Role::External
    } else if lower == "group"@ {
        Role::Group
    } else if lower == "dependency"@ {
        Role::Dependency
    } else if lower == "weak dependency"@ {
        Role::WeakDependency
    } else {
        Role::Unknown
    }
}

/// A `name|reason|repository` line of `dnf repoquery`; lines without a
/// reason field are skipped.
pub open spec fn reason_line(line: Seq<char>) -> Option<(Seq<char>, Role, Seq<char>)> {
    let a = first_index(line, '|');
    if a >= line.len() {
        None
    } else {
        let rest = line.skip(a + 1);
        let b = first_index(rest, '|');
        Some(
            (
                trim_spec(line.take(a)),
                reason_role(trim_spec(rest.take(b))),
                if b < rest.len() {
                    trim_spec(rest.skip(b + 1))
                } else {
                    Seq::empty()
                },
            ),
        )
    }
}

pub open spec fn reason_lines(lines: Seq<Seq<char>>) -> Seq<(Seq<char>, Role, Seq<char>)>
    decreases lines.len(),
{
    if lines.len() == 0 {
        Seq::empty()
    } else {
        match reason_line(lines.last()) {
            Some(r) => reason_lines(lines.drop_last()).push(r),
            None => reason_lines(lines.drop_last()),
        }
    }
}

pub open spec fn reasons_view(v: Seq<DnfReason>) -> Seq<(Seq<char>, Role, Seq<char>)> {
    v.map_values(|r: DnfReason| (r.name@, r.role, r.repository@))
}

fn role_of(reason: &Vec<char>) -> (r: Role)
    ensures
        r == reason_role(reason@),
{
    let lower = ascii_lower_chars(reason);
    let text = string_of(&lower);
    let t = text.as_str();
    if str_eq(t, "user") {
        Role::Explicit
    } else if str_eq(t, "external") || str_eq(t, "external user") {
        Role::External
    } else if str_eq(t, "group") {
        Role::Group
    } else if str_eq(t, "dependency") {
        Role::Dependency
    } else if str_eq(t, "weak dependency") {
        Role::WeakDependency
    } else {
        Role::Unknown
    }
}

/// The install reasons that `dnf repoquery --installed` reported, in order.
pub fn parse_dnf_reasons(text: &str) -> (r: Vec<DnfReason>)
    ensures
        reasons_view(r@) == reason_lines(lines_spec(text@)),
{
    let cs = chars_of(text);
    let lines = lines_of(&cs);
    let ghost ls = deep(lines@);
    let mut out: Vec<DnfReason> = Vec::new();
    assert(ls.take(0) =~= Seq::<Seq<char>>::empty());
    assert(reasons_view(out@) =~= Seq::<(Seq<char>, Role, Seq<char>)>::empty());
    for i in 0..lines.len()
        invariant
            ls == deep(lines@),
            reasons_view(out@) == reason_lines(ls.take(i as int)),
    {
        let line = &lines[i];
        proof {
            assert(ls.take(i + 1).drop_last() =~= ls.take(i as int));
            assert(ls.take(i + 1).last() == line@);
            lemma_first_index(line@, '|');
        }
        let a = find_char(line, '|');
        if a < line.len() {
            let name = slice_chars(line, 0, a);
            let rest = slice_chars(line, a + 1, line.len());
            assert(name@ =~= line@.take(a as int));
            assert(rest@ =~= line@.skip(a + 1));
            let b = find_char(&rest, '|');
            proof {
                lemma_first_index(rest@, '|');
            }
            let reason = slice_chars(&rest, 0, b);
            assert(reason@ =~= rest@.take(b as int));
            let repository: Vec<char> = if b < rest.len() {
                let tail = slice_chars(&rest, b + 1, rest.len());
                assert(tail@ =~= rest@.skip(b + 1));
                trim_chars(&tail)
            } else {
                Vec::new()
            };
            let reason_trimmed = trim_chars(&reason);
            let role = role_of(&reason_trimmed);
            let name_trimmed = trim_chars(&name);
            let ghost before = out@;
            out.push(
                DnfReason {
                    name: string_of(&name_trimmed),
                    role,
                    repository: string_of(&repository),
                },
            );
            assert(reasons_view(out@) =~= reasons_view(before).push(
                (name_trimmed@, role, repository@),
            ));
        }
    }
    assert(ls.take(lines@.len() as int) =~= ls);
    out
}

/// The fallback of Zypper's table output: installed-by-user rows (`i+`)
/// name the package in their third column.
pub open spec fn user_rows(lines: Seq<Seq<char>>) -> Seq<Seq<char>>
    decreases lines.len(),
{
    if lines.len() == 0 {
        Seq::empty()
    } else {
        let rest = user_rows(lines.drop_last());
        let f = bar_fields(lines.last());
        if f.len() >= 4 && "i+"@.is_prefix_of(f[0]) && f[2].len() > 0 {
            rest.push(f[2])
        } else {
            rest
        }
    }
}

/// The packages a user installed with Zypper: the solvables of its XML
/// answer (`matched`), else the `i+` rows of its table.
pub open spec fn zypper_explicit_spec(text: Seq<char>, matched: Seq<Seq<char>>) -> Seq<Seq<char>> {
    if matched.len() > 0 {
        matched
    } else {
        user_rows(lines_spec(text))
    }
}

pub fn zypper_explicit_from(text: &str, matched: Vec<String>) -> (r: Vec<String>)
    ensures
        texts(r@) == zypper_explicit_spec(text@, texts(matched@)),
{
    if matched.len() > 0 {
        return matched;
    }
    let cs = chars_of(text);
    let lines = lines_of(&cs);
    let ghost ls = deep(lines@);
    let mut out: Vec<String> = Vec::new();
    let marker = chars_of("i+");
    assert(ls.take(0) =~= Seq::<Seq<char>>::empty());
    assert(texts(out@) =~= Seq::<Seq<char>>::empty());
    for i in 0..lines.len()
        invariant
            ls == deep(lines@),
            marker@ == "i+"@,
            texts(out@) == user_rows(ls.take(i as int)),
    {
        proof {
            assert(ls.take(i + 1).drop_last() =~= ls.take(i as int));
            assert(ls.take(i + 1).last() == lines@[i as int]@);
        }
        let f = bar_fields_of(&lines[i]);
        if f.len() >= 4 {
            assert(deep(f@)[0] == f@[0]@);
            assert(deep(f@)[2] == f@[2]@);
            if starts_with_chars(&f[0], &marker) && f[2].len() > 0 {
                let ghost before = out@;
                out.push(string_of(&f[2]));
                assert(texts(out@) =~= texts(before).push(f@[2]@));
            }
        }
    }
    assert(ls.take(lines@.len() as int) =~= ls);
    out
}

/// The packages a user installed with Zypper, from the output of
/// `zypper --xmlout packages --installed-only --userinstalled`.
pub fn zypper_explicit(text: &str) -> (r: Vec<String>)
    ensures
        texts(r@) == zypper_explicit_spec(text@, regex_groups(zypper_solvable_pattern(), text@)),
{
    let matched = capture_all("(?i)<solvable\\b[^>]*\\bname=[\\\"']([^\\\"']+)[\\\"']", text);
    zypper_explicit_from(text, matched)
}

/// What the managers record about install reasons, where they were asked.
pub struct RoleFacts {
    /// DNF's recorded reasons.
    pub dnf: Option<Vec<DnfReason>>,
    /// The package bases APT installed automatically.
    pub apt_auto: Option<Vec<String>>,
    /// The packages a user installed with Zypper.
    pub zypper_explicit: Option<Vec<String>>,
    /// The packages a user installed with YUM.
    pub yum_explicit: Option<Vec<String>>,
}

/// The last recorded reason for a package name.
pub open spec fn reason_for(reasons: Seq<(Seq<char>, Role, Seq<char>)>, name: Seq<char>) -> Option<
    (Role, Seq<char>),
>
    decreases reasons.len(),
{
    if reasons.len() == 0 {
        None
    } else if reasons.last().0 == name {
        Some((reasons.last().1, reasons.last().2))
    } else {
        reason_for(reasons.drop_last(), name)
    }
}

/// Whether a list of names holds a package base.
pub open spec fn names_hold(names: Option<Vec<String>>, base: Seq<char>) -> Option<bool> {
    match names {
        Some(v) => Some(texts(v@).contains(base)),
        None => None,
    }
}

/// The role and origin an item gets from what its manager records: DNF's
/// reason (and its repository when the item has no origin yet), APT's
/// automatic marks, and the user-installed lists of Zypper and YUM.
pub open spec fn annotated(item: Match, facts: RoleFacts) -> (Role, Seq<char>) {
    let base = package_base_spec(item.id@);
    let b = item.backend@;
    let kept = (item.role, item.origin@);
    if b == "DNF"@ {
        match facts.dnf {
            Some(v) => match reason_for(reasons_view(v@), base) {
                Some((role, repository)) => (
                    role,
                    if item.origin@.len() == 0 {
                        repository
                    } else {
                        item.origin@
                    },
                ),
                None => kept,
            },
            None => kept,
        }
    } else if b == "APT"@ {
        match names_hold(facts.apt_auto, base) {
            Some(auto) => (
                if auto {
                    Role::Dependency
                } else {
                    Role::Explicit
                },
                item.origin@,
            ),
            None => kept,
        }
    } else if b == "Zypper"@ || b == "YUM"@ {
        match names_hold(
            if b == "Zypper"@ {
                facts.zypper_explicit
            } else {
                facts.yum_explicit
            },
            base,
        ) {
            Some(explicit) => (
                if explicit {
                    Role::Explicit
                } else {
                    Role::Dependency
                },
                item.origin@,
            ),
            None => kept,
        }
    } else {
        kept
    }
}

/// Two matches agree on everything but role, origin and reason.
pub open spec fn same_identity(a: Match, b: Match) -> bool {
    &&& a.backend == b.backend
    &&& a.id == b.id
    &&& a.name == b.name
    &&& a.version == b.version
    &&& a.scope == b.scope
    &&& a.command_path == b.command_path
    &&& a.source_path == b.source_path
    &&& a.installed_size_bytes == b.installed_size_bytes
    &&& a.architecture == b.architecture
    &&& a.profile == b.profile
    &&& a.installation == b.installation
    &&& a.summary == b.summary
    &&& a.evidence == b.evidence
}

fn reason_lookup(reasons: &Vec<DnfReason>, name: &str) -> (r: Option<(Role, String)>)
    ensures
        match r {
            Some((role, repo)) => reason_for(reasons_view(reasons@), name@) == Some((role, repo@)),
            None => reason_for(reasons_view(reasons@), name@) is None,
        },
{
    let ghost rv = reasons_view(reasons@);
    let mut i = reasons.len();
    assert(rv.take(i as int) =~= rv);
    while i > 0
        invariant
            i <= reasons@.len(),
            rv == reasons_view(reasons@),
            reason_for(rv, name@) == reason_for(rv.take(i as int), name@),
        decreases i,
    {
        let e = &reasons[i - 1];
        assert(rv.take(i as int).last() == (e.name@, e.role, e.repository@));
        if str_eq(e.name.as_str(), name) {
            return Some((e.role, e.repository.clone()));
        }
        assert(rv.take(i as int).drop_last() =~= rv.take(i - 1));
        i = i - 1;
    }
    None
}

fn holds(names: &Option<Vec<String>>, base: &str) -> (r: Option<bool>)
    ensures
        r == names_hold(*names, base@),
{
    match names {
        Some(v) => Some(texts_contain(v, base)),
        None => None,
    }
}

/// Gives each item the role its manager records (see `annotated`).
pub fn annotate_roles(items: &mut Vec<Match>, facts: &RoleFacts)
    ensures
        final(items)@.len() == old(items)@.len(),
        forall|i: int|
            0 <= i < old(items)@.len() ==> {
                let (role, origin) = annotated(#[trigger] old(items)@[i], *facts);
                &&& final(items)@[i].role == role
                &&& final(items)@[i].origin@ == origin
                &&& final(items)@[i].reason == old(items)@[i].reason
                &&& same_identity(final(items)@[i], old(items)@[i])
            },
{
    let ghost start = items@;
    let n = items.len();
    let mut i: usize = 0;
    while i < n
        invariant
            n == start.len(),
            i <= n,
            items@.len() == start.len(),
            forall|j: int|
                i <= j < start.len() ==> #[trigger] items@[j] == start[j],
            forall|j: int|
                0 <= j < i ==> {
                    let (role, origin) = annotated(#[trigger] start[j], *facts);
                    &&& items@[j].role == role
                    &&& items@[j].origin@ == origin
                    &&& items@[j].reason == start[j].reason
                    &&& same_identity(items@[j], start[j])
                },
        decreases n - i,
    {
        let mut item = items[i].duplicate();
        let base = package_base(item.id.as_str());
        let b = item.backend.as_str();
        if str_eq(b, "DNF") {
            match &facts.dnf {
                Some(reasons) => match reason_lookup(reasons, base.as_str()) {
                    Some((role, repository)) => {
                        item.role = role;
                        if item.origin.as_str().is_empty() {
                            item.origin = repository;
                        }
                    },
                    None => {},
                },
                None => {},
            }
        } else if str_eq(b, "APT") {
            match holds(&facts.apt_auto, base.as_str()) {
                Some(auto) => {
                    item.role = if auto {
                        Role::Dependency
                    } else {
                        Role::Explicit
                    };
                },
                None => {},
            }
        } else if str_eq(b, "Zypper") || str_eq(b, "YUM") {
            let names = if str_eq(b, "Zypper") {
                &facts.zypper_explicit
            } else {
                &facts.yum_explicit
            };
            match holds(names, base.as_str()) {
                Some(explicit) => {
                    item.role = if explicit {
                        Role::Explicit
                    } else {
                        Role::Dependency
                    };
                },
                None => {},
            }
        }
        items.set(i, item);
        i = i + 1;
    }
}


// ---------------------------------------------------------------------------
// Install reasons
// ---------------------------------------------------------------------------

/// What the install reason of one item is told from: what its manager's
/// logs, history and dependency queries answered, where they were asked.
pub struct ReasonFacts {
    /// The install event in the manager's logs (APT, Pacman and Zypper).
    pub history: Option<String>,
    /// The DNF transaction that installed the package.
    pub dnf_record: Option<DnfRecord>,
    /// What requires the package, for a dependency.
    pub dependency_cause: Option<String>,
    /// The output of `snap info` for a Snap.
    pub snap_info: String,
    /// DNF's installed groups, for a package installed by a group.
    pub groups: Vec<InventoryEntry>,
    /// DNF's installed environments, for a package installed by a group.
    pub environments: Vec<InventoryEntry>,
}

/// The channel a Snap tracks: the first `tracking:` line of `snap info`.
pub open spec fn tracking_channel(lines: Seq<Seq<char>>) -> Seq<char>
    decreases lines.len(),
{
    if lines.len() == 0 {
        Seq::empty()
    } else if "tracking:"@.is_prefix_of(trim_spec(lines[0])) {
        trim_spec(trim_spec(lines[0]).skip(9))
    } else {
        tracking_channel(lines.drop_first())
    }
}

fn snap_channel(info: &str) -> (r: Vec<char>)
    ensures
        r@ == tracking_channel(lines_spec(info@)),
{
    let cs = chars_of(info);
    let lines = lines_of(&cs);
    let ghost ls = deep(lines@);
    let prefix = chars_of("tracking:");
    proof {
        reveal_strlit("tracking:");
    }
    let mut i: usize = 0;
    assert(ls.skip(0) =~= ls);
    while i < lines.len()
        invariant
            i <= lines@.len(),
            ls == deep(lines@),
            ls == lines_spec(info@),
            prefix@ == "tracking:"@,
            prefix@.len() == 9,
            tracking_channel(ls) == tracking_channel(ls.skip(i as int)),
        decreases lines@.len() - i,
    {
        let t = trim_chars(&lines[i]);
        assert(ls.skip(i as int)[0] == lines@[i as int]@);
        if starts_with_chars(&t, &prefix) {
            let rest = slice_chars(&t, 9, t.len());
            assert(rest@ =~= t@.skip(9));
            return trim_chars(&rest);
        }
        assert(ls.skip(i as int).drop_first() =~= ls.skip(i + 1));
        i = i + 1;
    }
    assert(ls.skip(i as int) =~= Seq::<Seq<char>>::empty());
    Vec::new()
}

/// `text` when `origin` is empty, otherwise `text` followed by `joiner`
/// and the origin.
pub open spec fn with_origin(text: Seq<char>, joiner: Seq<char>, origin: Seq<char>) -> Seq<char> {
    if origin.len() == 0 {
        text
    } else {
        text + joiner + origin
    }
}

/// The cause of an installation outside DNF, by backend and role.
pub open spec fn cause_spec(item: Match, dependency: Option<Seq<char>>, channel: Seq<char>) -> Seq<char> {
    let b = item.backend@;
    let o = item.origin@;
    let role = item.role;
    if b == "Flatpak"@ {
        with_origin("explicitly requested through Flatpak"@, " remote "@, o)
    } else if b == "Snap"@ {
        if channel.len() == 0 {
            "explicitly requested through Snap; original install event is unavailable"@
        } else {
            "explicitly requested through Snap channel "@ + channel
                + "; original install event is unavailable"@
        }
    } else if b == "Gear Lever"@ {
        if o.len() == 0 {
            "managed by Gear Lever at "@ + item.id@ + "; original download source is unavailable"@
        } else {
            "managed by Gear Lever at "@ + item.id@ + "; update source: "@ + o
        }
    } else if b == "AppImage"@ {
        "unmanaged AppImage at "@ + item.id@ + "; its original download source is unknown"@
    } else if b == "Standalone"@ {
        "unmanaged executable at "@ + item.id@
            + "; no supported installer owns it and its original source is unknown"@
    } else if b == "Container Export"@ {
        "exported from container "@ + item.profile@
            + "; the application is installed inside that container"@
    } else if b == "Homebrew"@ || b == "Homebrew Cask"@ {
        with_origin(
            if role == Role::Dependency {
                "installed by Homebrew as a dependency"@
            } else {
                "explicitly requested through Homebrew"@
            },
            " from tap "@,
            o,
        )
    } else if b == "Cargo"@ {
        if o.len() == 0 {
            "explicitly installed with cargo install; source metadata is unavailable"@
        } else {
            "explicitly installed with cargo install from "@ + o
        }
    } else if b == "Pipx"@ {
        "explicitly installed by pipx from "@ + if o.len() == 0 {
            item.id@
        } else {
            o
        }
    } else if b == "UV Tool"@ {
        "explicitly installed as a uv tool; uv does not retain the original command"@
    } else if b == "NPM"@ {
        if o.len() == 0 {
            "explicitly installed in npm's global prefix; resolved source is unavailable"@
        } else {
            "explicitly installed globally by npm from "@ + o
        }
    } else if b == "Nix"@ {
        with_origin("explicit profile entry"@, " in "@, item.profile@)
            + "; Nix profile metadata is authoritative"@
    } else if b == "Nix Legacy"@ {
        "explicit entry in the legacy Nix user environment"@
    } else if b == "Guix"@ {
        "explicit entry in Guix profile "@ + item.profile@
    } else if b == "Conda"@ || b == "Micromamba"@ {
        with_origin("installed in "@ + b + " environment "@ + item.profile@, " from channel "@, o)
            + "; metadata does not retain whether it was directly requested"@
    } else if b == "RPM-OSTree"@ {
        "explicitly layered onto the current rpm-ostree deployment"@
    } else if b == "RPM"@ {
        "present in the RPM database; no supported transaction history identifies the original request"@
    } else if b == "APT-RPM"@ {
        "present in the RPM database managed by APT-RPM; original install history is unavailable"@
    } else if b == "Slackware"@ {
        "present in Slackware's installed-package log; pkgtools does not record dependency reasons"@
    } else if b == "Swupd"@ || b == "Swupd 3rd-party"@ {
        if role == Role::Dependency {
            "installed because another Swupd bundle includes it"@
        } else {
            "explicitly tracked as an installed Swupd bundle"@
        }
    } else if b == "APK"@ {
        if role == Role::Explicit {
            "listed in /etc/apk/world as a top-level constraint; APK does not retain the original install command"@
        } else {
            match dependency {
                Some(p) => p + "; it is not listed in /etc/apk/world"@,
                None => "not listed in /etc/apk/world and retained by APK as a dependency; its original parent is unavailable"@,
            }
        }
    } else if b == "OPKG"@ && role == Role::Explicit {
        "recorded as manually installed in OPKG's status database; original install history is unavailable"@
    } else if b == "OPKG"@ && role == Role::Dependency {
        "recorded as automatically installed in OPKG's status database; the original parent is unavailable"@
    } else if b == "XBPS"@ {
        if role == Role::Explicit {
            "listed by XBPS as a manually installed package; original transaction history is unavailable"@
        } else {
            match dependency {
                Some(p) => p + "; it is not listed as manually installed"@,
                None => "not listed by XBPS as manually installed; the original parent is unavailable"@,
            }
        }
    } else if b == "Portage"@ {
        if role == Role::Explicit {
            with_origin("listed in Portage's @world set"@, " from repository "@, o)
                + "; Portage does not retain the original emerge command"@
        } else {
            with_origin(
                "not listed in Portage's @world set and retained as a dependency"@,
                " from repository "@,
                o,
            ) + "; the original parent and emerge command are unavailable"@
        }
    } else if b == "Eopkg"@ {
        if role == Role::Explicit {
            "not marked automatic by Eopkg, so it is currently a top-level package; original install history is unavailable"@
        } else {
            match dependency {
                Some(p) => p,
                None => "marked automatic by Eopkg; the original parent is unavailable"@,
            }
        }
    } else if role.is_dependency_spec() {
        match dependency {
            Some(p) => p,
            None => "marked as a "@ + role.label_spec() + " by "@ + b,
        }
    } else if role == Role::Group {
        "installed as part of a "@ + b + " package group"@
    } else if role == Role::Explicit {
        "explicitly requested through "@ + b + "; original install history is unavailable"@
    } else {
        "installed through "@ + b + "; its original install reason is unavailable"@
    }
}

/// The cause of a DNF installation by its recorded role.
pub open spec fn dnf_cause_spec(item: Match, dependency: Option<Seq<char>>) -> Seq<char> {
    match item.role {
        Role::Explicit => "explicitly requested"@,
        Role::External => "installed outside DNF and later recorded in its package database"@,
        Role::Unknown => "installed in the RPM database; DNF's original reason is unavailable"@,
        _ => match dependency {
            Some(p) => p,
            None => "installed as a "@ + item.role.label_spec(),
        },
    }
}

pub open spec fn opt_texts_of(o: Option<String>) -> Option<Seq<char>> {
    match o {
        Some(s) => Some(s@),
        None => None,
    }
}

/// The logged install event, for the managers whose logs are read.
pub open spec fn history_of(item: Match, facts: ReasonFacts) -> Option<Seq<char>> {
    let b = item.backend@;
    if b == "APT"@ || b == "Pacman"@ || b == "Zypper"@ {
        opt_texts_of(facts.history)
    } else {
        None
    }
}

/// Why an item is installed: a reason already known is kept; a DNF
/// package is told by its recorded role (or group) and transaction; others
/// by their manager's records and the logged install event.
pub open spec fn install_reason_spec(item: Match, facts: ReasonFacts) -> Seq<char> {
    if item.reason@.len() > 0 {
        item.reason@
    } else if item.backend@ == "DNF"@ {
        if item.role == Role::Group {
            group_reason_spec(
                package_base_spec(item.id@),
                facts.dnf_record,
                entries_view(facts.groups@),
                entries_view(facts.environments@),
            )
        } else {
            let cause = dnf_cause_spec(item, opt_texts_of(facts.dependency_cause));
            match facts.dnf_record {
                Some(r) => cause + "; "@ + dnf_history_spec(r),
                None => cause,
            }
        }
    } else {
        let cause = cause_spec(
            item,
            opt_texts_of(facts.dependency_cause),
            tracking_channel(lines_spec(facts.snap_info@)),
        );
        match history_of(item, facts) {
            Some(e) => cause + "; "@ + e,
            None => cause,
        }
    }
}


fn join2(a: &str, b: &str) -> (r: String)
    ensures
        r@ == a@ + b@,
{
    let mut out = owned(a);
    push_str(&mut out, b);
    out
}

fn join3(a: &str, b: &str, c: &str) -> (r: String)
    ensures
        r@ == a@ + b@ + c@,
{
    let mut out = owned(a);
    push_str(&mut out, b);
    push_str(&mut out, c);
    out
}

fn join4(a: &str, b: &str, c: &str, d: &str) -> (r: String)
    ensures
        r@ == a@ + b@ + c@ + d@,
{
    let mut out = owned(a);
    push_str(&mut out, b);
    push_str(&mut out, c);
    push_str(&mut out, d);
    out
}

fn with_origin_of(text: &str, joiner: &str, origin: &str) -> (r: String)
    ensures
        r@ == with_origin(text@, joiner@, origin@),
{
    if origin.is_empty() {
        owned(text)
    } else {
        join3(text, joiner, origin)
    }
}

fn cause_of(item: &Match, dependency: &Option<String>, channel: &Vec<char>) -> (r: String)
    ensures
        r@ == cause_spec(*item, opt_texts_of(*dependency), channel@),
{
    let b = item.backend.as_str();
    let o = item.origin.as_str();
    let id = item.id.as_str();
    let role = item.role;
    if str_eq(b, "Flatpak") {
        with_origin_of("explicitly requested through Flatpak", " remote ", o)
    } else if str_eq(b, "Snap") {
        if channel.len() == 0 {
            owned("explicitly requested through Snap; original install event is unavailable")
        } else {
            let ch = string_of(channel);
            join3(
                "explicitly requested through Snap channel ",
                ch.as_str(),
                "; original install event is unavailable",
            )
        }
    } else if str_eq(b, "Gear Lever") {
        if o.is_empty() {
            join3("managed by Gear Lever at ", id, "; original download source is unavailable")
        } else {
            join4("managed by Gear Lever at ", id, "; update source: ", o)
        }
    } else if str_eq(b, "AppImage") {
        join3("unmanaged AppImage at ", id, "; its original download source is unknown")
    } else if str_eq(b, "Standalone") {
        join3(
            "unmanaged executable at ",
            id,
            "; no supported installer owns it and its original source is unknown",
        )
    } else if str_eq(b, "Container Export") {
        join3(
            "exported from container ",
            item.profile.as_str(),
            "; the application is installed inside that container",
        )
    } else if str_eq(b, "Homebrew") || str_eq(b, "Homebrew Cask") {
        let state = if role == Role::Dependency {
            "installed by Homebrew as a dependency"
        } else {
            "explicitly requested through Homebrew"
        };
        with_origin_of(state, " from tap ", o)
    } else if str_eq(b, "Cargo") {
        if o.is_empty() {
            owned("explicitly installed with cargo install; source metadata is unavailable")
        } else {
            join2("explicitly installed with cargo install from ", o)
        }
    } else if str_eq(b, "Pipx") {
        if o.is_empty() {
            join2("explicitly installed by pipx from ", id)
        } else {
            join2("explicitly installed by pipx from ", o)
        }
    } else if str_eq(b, "UV Tool") {
        owned("explicitly installed as a uv tool; uv does not retain the original command")
    } else if str_eq(b, "NPM") {
        if o.is_empty() {
            owned("explicitly installed in npm's global prefix; resolved source is unavailable")
        } else {
            join2("explicitly installed globally by npm from ", o)
        }
    } else if str_eq(b, "Nix") {
        let head = with_origin_of("explicit profile entry", " in ", item.profile.as_str());
        join2(head.as_str(), "; Nix profile metadata is authoritative")
    } else if str_eq(b, "Nix Legacy") {
        owned("explicit entry in the legacy Nix user environment")
    } else if str_eq(b, "Guix") {
        join2("explicit entry in Guix profile ", item.profile.as_str())
    } else if str_eq(b, "Conda") || str_eq(b, "Micromamba") {
        let place = join4("installed in ", b, " environment ", item.profile.as_str());
        let head = with_origin_of(place.as_str(), " from channel ", o);
        join2(head.as_str(), "; metadata does not retain whether it was directly requested")
    } else if str_eq(b, "RPM-OSTree") {
        owned("explicitly layered onto the current rpm-ostree deployment")
    } else if str_eq(b, "RPM") {
        owned(
            "present in the RPM database; no supported transaction history identifies the original request",
        )
    } else if str_eq(b, "APT-RPM") {
        owned(
            "present in the RPM database managed by APT-RPM; original install history is unavailable",
        )
    } else if str_eq(b, "Slackware") {
        owned(
            "present in Slackware's installed-package log; pkgtools does not record dependency reasons",
        )
    } else if str_eq(b, "Swupd") || str_eq(b, "Swupd 3rd-party") {
        if role == Role::Dependency {
            owned("installed because another Swupd bundle includes it")
        } else {
            owned("explicitly tracked as an installed Swupd bundle")
        }
    } else if str_eq(b, "APK") {
        if role == Role::Explicit {
            owned(
                "listed in /etc/apk/world as a top-level constraint; APK does not retain the original install command",
            )
        } else {
            match dependency {
                Some(p) => join2(p.as_str(), "; it is not listed in /etc/apk/world"),
                None => owned(
                    "not listed in /etc/apk/world and retained by APK as a dependency; its original parent is unavailable",
                ),
            }
        }
    } else if str_eq(b, "OPKG") && role == Role::Explicit {
        owned(
            "recorded as manually installed in OPKG's status database; original install history is unavailable",
        )
    } else if str_eq(b, "OPKG") && role == Role::Dependency {
        owned(
            "recorded as automatically installed in OPKG's status database; the original parent is unavailable",
        )
    } else if str_eq(b, "XBPS") {
        if role == Role::Explicit {
            owned(
                "listed by XBPS as a manually installed package; original transaction history is unavailable",
            )
        } else {
            match dependency {
                Some(p) => join2(p.as_str(), "; it is not listed as manually installed"),
                None => owned(
                    "not listed by XBPS as manually installed; the original parent is unavailable",
                ),
            }
        }
    } else if str_eq(b, "Portage") {
        if role == Role::Explicit {
            let head = with_origin_of("listed in Portage's @world set", " from repository ", o);
            join2(head.as_str(), "; Portage does not retain the original emerge command")
        } else {
            let head = with_origin_of(
                "not listed in Portage's @world set and retained as a dependency",
                " from repository ",
                o,
            );
            join2(head.as_str(), "; the original parent and emerge command are unavailable")
        }
    } else if str_eq(b, "Eopkg") {
        if role == Role::Explicit {
            owned(
                "not marked automatic by Eopkg, so it is currently a top-level package; original install history is unavailable",
            )
        } else {
            match dependency {
                Some(p) => p.clone(),
                None => owned("marked automatic by Eopkg; the original parent is unavailable"),
            }
        }
    } else if role.is_dependency() {
        match dependency {
            Some(p) => p.clone(),
            None => join4("marked as a ", role.label(), " by ", b),
        }
    } else if role == Role::Group {
        join3("installed as part of a ", b, " package group")
    } else if role == Role::Explicit {
        join3("explicitly requested through ", b, "; original install history is unavailable")
    } else {
        join3("installed through ", b, "; its original install reason is unavailable")
    }
}

fn dnf_cause_of(item: &Match, dependency: &Option<String>) -> (r: String)
    ensures
        r@ == dnf_cause_spec(*item, opt_texts_of(*dependency)),
{
    match item.role {
        Role::Explicit => owned("explicitly requested"),
        Role::External => owned("installed outside DNF and later recorded in its package database"),
        Role::Unknown => owned(
            "installed in the RPM database; DNF's original reason is unavailable",
        ),
        _ => match dependency {
            Some(p) => p.clone(),
            None => join2("installed as a ", item.role.label()),
        },
    }
}

/// Why an item is installed (see `install_reason_spec`).
pub fn install_reason(item: &Match, facts: &ReasonFacts) -> (r: String)
    ensures
        r@ == install_reason_spec(*item, *facts),
{
    if !item.reason.as_str().is_empty() {
        return item.reason.clone();
    }
    let b = item.backend.as_str();
    if str_eq(b, "DNF") {
        let record = match &facts.dnf_record {
            Some(rec) => Some(rec),
            None => None,
        };
        if item.role == Role::Group {
            let base = package_base(item.id.as_str());
            return dnf_group_reason(base.as_str(), record, &facts.groups, &facts.environments);
        }
        let cause = dnf_cause_of(item, &facts.dependency_cause);
        return match dnf_history_text(record) {
            Some(event) => join3(cause.as_str(), "; ", event.as_str()),
            None => cause,
        };
    }
    let channel = snap_channel(facts.snap_info.as_str());
    let cause = cause_of(item, &facts.dependency_cause, &channel);
    let logged = str_eq(b, "APT") || str_eq(b, "Pacman") || str_eq(b, "Zypper");
    if logged {
        match &facts.history {
            Some(event) => join3(cause.as_str(), "; ", event.as_str()),
            None => cause,
        }
    } else {
        cause
    }
}

/// Every item is given a reason to show: the install reason is never empty,
/// as long as a dependency cause, when one was found, is not empty itself.
pub proof fn reason_is_never_empty(item: Match, facts: ReasonFacts)
    requires
        facts.dependency_cause matches Some(d) ==> d@.len() > 0,
    ensures
        install_reason_spec(item, facts).len() > 0,
{
    reveal_strlit(": ");
    reveal_strlit("DNF transaction ");
    reveal_strlit("environment");
    reveal_strlit("explicit entry in Guix profile ");
    reveal_strlit("explicit entry in the legacy Nix user environment");
    reveal_strlit("explicit profile entry");
    reveal_strlit("explicitly installed as a uv tool; uv does not retain the original command");
    reveal_strlit("explicitly installed by pipx from ");
    reveal_strlit("explicitly installed globally by npm from ");
    reveal_strlit("explicitly installed in npm's global prefix; resolved source is unavailable");
    reveal_strlit("explicitly installed with cargo install from ");
    reveal_strlit("explicitly installed with cargo install; source metadata is unavailable");
    reveal_strlit("explicitly layered onto the current rpm-ostree deployment");
    reveal_strlit("explicitly requested");
    reveal_strlit("explicitly requested through ");
    reveal_strlit("explicitly requested through Flatpak");
    reveal_strlit("explicitly requested through Homebrew");
    reveal_strlit("explicitly requested through Snap channel ");
    reveal_strlit("explicitly requested through Snap; original install event is unavailable");
    reveal_strlit("explicitly tracked as an installed Swupd bundle");
    reveal_strlit("exported from container ");
    reveal_strlit("installed as a ");
    reveal_strlit("installed as part of ");
    reveal_strlit("installed as part of a ");
    reveal_strlit("installed as part of a package group");
    reveal_strlit("installed as part of a package group; ");
    reveal_strlit("installed because another Swupd bundle includes it");
    reveal_strlit("installed by Homebrew as a dependency");
    reveal_strlit("installed in ");
    reveal_strlit("installed in the RPM database; DNF's original reason is unavailable");
    reveal_strlit("installed outside DNF and later recorded in its package database");
    reveal_strlit("installed through ");
    reveal_strlit("listed by XBPS as a manually installed package; original transaction history is unavailable");
    reveal_strlit("listed in /etc/apk/world as a top-level constraint; APK does not retain the original install command");
    reveal_strlit("listed in Portage's @world set");
    reveal_strlit("managed by Gear Lever at ");
    reveal_strlit("marked as a ");
    reveal_strlit("marked automatic by Eopkg; the original parent is unavailable");
    reveal_strlit("not listed by XBPS as manually installed; the original parent is unavailable");
    reveal_strlit("not listed in /etc/apk/world and retained by APK as a dependency; its original parent is unavailable");
    reveal_strlit("not listed in Portage's @world set and retained as a dependency");
    reveal_strlit("not marked automatic by Eopkg, so it is currently a top-level package; original install history is unavailable");
    reveal_strlit("present in Slackware's installed-package log; pkgtools does not record dependency reasons");
    reveal_strlit("present in the RPM database managed by APT-RPM; original install history is unavailable");
    reveal_strlit("present in the RPM database; no supported transaction history identifies the original request");
    reveal_strlit("recorded as automatically installed in OPKG's status database; the original parent is unavailable");
    reveal_strlit("recorded as manually installed in OPKG's status database; original install history is unavailable");
    reveal_strlit("unknown command");
    reveal_strlit("unmanaged AppImage at ");
    reveal_strlit("unmanaged executable at ");
}

/// A Homebrew formula or cask without a recorded reason is said to be
/// installed as a dependency exactly when its role is a dependency; one
/// that was requested is said to be explicitly requested through Homebrew.
pub proof fn homebrew_reason_follows_role(item: Match, facts: ReasonFacts)
    requires
        item.reason@.len() == 0,
        item.backend@ == "Homebrew"@ || item.backend@ == "Homebrew Cask"@,
    ensures
        "installed by Homebrew as a dependency"@.is_prefix_of(install_reason_spec(item, facts))
            <==> item.role == Role::Dependency,
        item.role != Role::Dependency ==> "explicitly requested through Homebrew"@.is_prefix_of(
            install_reason_spec(item, facts),
        ),
{
    reveal_strlit("Homebrew");
    reveal_strlit("Homebrew Cask");
    reveal_strlit("DNF");
    reveal_strlit("Flatpak");
    reveal_strlit("Snap");
    reveal_strlit("Gear Lever");
    reveal_strlit("AppImage");
    reveal_strlit("Standalone");
    reveal_strlit("Container Export");
    reveal_strlit("APT");
    reveal_strlit("Pacman");
    reveal_strlit("Zypper");
    reveal_strlit("installed by Homebrew as a dependency");
    reveal_strlit("explicitly requested through Homebrew");
    let dep = "installed by Homebrew as a dependency"@;
    let req = "explicitly requested through Homebrew"@;
    let reason = install_reason_spec(item, facts);
    let o = item.origin@;
    let text = if item.role == Role::Dependency {
        dep
    } else {
        req
    };
    let b = item.backend@;
    assert(b.len() == 8 || b.len() == 13);
    assert(b != "APT"@ && b != "Pacman"@ && b != "Zypper"@ && b != "DNF"@);
    assert(b != "Flatpak"@ && b != "Snap"@ && b != "Gear Lever"@ && b != "AppImage"@) by {
        assert(b[0] == 'H');
    }
    assert(b != "Standalone"@ && b != "Container Export"@);
    assert(history_of(item, facts) is None);
    assert(reason == cause_spec(item, opt_texts_of(facts.dependency_cause), tracking_channel(lines_spec(facts.snap_info@))));
    assert(reason == with_origin(text, " from tap "@, o));
    assert(text.is_prefix_of(reason)) by {
        if o.len() > 0 {
            assert(reason.subrange(0, text.len() as int) =~= text);
        } else {
            assert(reason.subrange(0, text.len() as int) =~= text);
        }
    }
    if item.role != Role::Dependency {
        assert(!dep.is_prefix_of(reason)) by {
            assert(reason[0] == 'e');
            assert(dep[0] == 'i');
        }
    }
}

/// What explaining makes of items: each reason becomes the item's install
/// reason, and nothing else of it changes.
pub open spec fn explained(before: Seq<Match>, facts: Seq<ReasonFacts>, after: Seq<Match>) -> bool {
    &&& after.len() == before.len()
    &&& forall|i: int|
        0 <= i < before.len() ==> {
            &&& after[i].reason@ == install_reason_spec(#[trigger] before[i], facts[i])
            &&& after[i].role == before[i].role
            &&& after[i].origin == before[i].origin
            &&& same_identity(after[i], before[i])
        }
}

/// Whether two items are the same in every field, their reasons compared
/// by text.
pub open spec fn same_item(a: Match, b: Match) -> bool {
    a.reason@ == b.reason@ && a.role == b.role && a.origin == b.origin && same_identity(a, b)
}

/// Explaining items a second time with the same facts changes nothing: a
/// reason, once given, is kept.
pub proof fn explaining_again_changes_nothing(
    items: Seq<Match>,
    facts: Seq<ReasonFacts>,
    once: Seq<Match>,
    twice: Seq<Match>,
)
    requires
        facts.len() == items.len(),
        explained(items, facts, once),
        explained(once, facts, twice),
    ensures
        twice.len() == once.len(),
        forall|i: int| 0 <= i < once.len() ==> same_item(#[trigger] twice[i], once[i]),
{
    assert forall|i: int| 0 <= i < once.len() implies same_item(#[trigger] twice[i], once[i]) by {
        let a = items[i];
        let b = once[i];
        assert(b.reason@ == install_reason_spec(a, facts[i]));
        assert(twice[i].reason@ == install_reason_spec(b, facts[i]));
        if b.reason@.len() == 0 {
            assert(a.reason@.len() == 0);
            assert(install_reason_spec(b, facts[i]) == install_reason_spec(a, facts[i]));
        }
    }
}

/// Fills in each item's install reason from its facts.
pub fn explain(items: &mut Vec<Match>, facts: &Vec<ReasonFacts>)
    requires
        facts@.len() == old(items)@.len(),
    ensures
        explained(old(items)@, facts@, final(items)@),
{
    let ghost start = items@;
    let n = items.len();
    let mut i: usize = 0;
    while i < n
        invariant
            n == start.len(),
            i <= n,
            items@.len() == start.len(),
            facts@.len() == start.len(),
            forall|j: int| i <= j < start.len() ==> #[trigger] items@[j] == start[j],
            forall|j: int|
                0 <= j < i ==> {
                    &&& items@[j].reason@ == install_reason_spec(#[trigger] start[j], facts@[j])
                    &&& items@[j].role == start[j].role
                    &&& items@[j].origin == start[j].origin
                    &&& same_identity(items@[j], start[j])
                },
        decreases n - i,
    {
        let mut item = items[i].duplicate();
        assert(items@[i as int] == start[i as int]);
        let reason = install_reason(&items[i], &facts[i]);
        assert(reason@ == install_reason_spec(start[i as int], facts@[i as int]));
        item.reason = reason;
        assert(item.reason@ == install_reason_spec(start[i as int], facts@[i as int]));
        assert(same_identity(item, start[i as int]));
        let ghost before = items@;
        items.set(i, item);
        assert(items@[i as int].reason@ == install_reason_spec(start[i as int], facts@[i as int]));
        assert(items@[i as int].role == start[i as int].role);
        assert(items@[i as int].origin == start[i as int].origin);
        assert(same_identity(items@[i as int], start[i as int]));
        assert forall|j: int| 0 <= j < i implies {
            &&& items@[j].reason@ == install_reason_spec(#[trigger] start[j], facts@[j])
            &&& items@[j].role == start[j].role
            &&& items@[j].origin == start[j].origin
            &&& same_identity(items@[j], start[j])
        } by {
            assert(items@[j] == before[j]);
            assert(before[j].reason@ == install_reason_spec(start[j], facts@[j]));
        }
        i = i + 1;
    }
}


/// Marks each result's role and then explains it: `reasons` holds what
/// the caller found about each result once its role is known.
pub fn decorate(items: &mut Vec<Match>, roles: &RoleFacts, reasons: &Vec<ReasonFacts>)
    requires
        reasons@.len() == old(items)@.len(),
    ensures
        final(items)@.len() == old(items)@.len(),
        forall|i: int|
            0 <= i < old(items)@.len() ==> {
                let (role, origin) = annotated(#[trigger] old(items)@[i], *roles);
                &&& final(items)@[i].role == role
                &&& final(items)@[i].origin@ == origin
                &&& same_identity(final(items)@[i], old(items)@[i])
                &&& final(items)@[i].reason@ == install_reason_spec(
                    (Match { reason: old(items)@[i].reason, ..final(items)@[i] }),
                    reasons@[i],
                )
            },
{
    let ghost start = items@;
    annotate_roles(items, roles);
    let ghost mid = items@;
    explain(items, reasons);
    assert forall|i: int| 0 <= i < start.len() implies {
        let (role, origin) = annotated(#[trigger] start[i], *roles);
        &&& items@[i].role == role
        &&& items@[i].origin@ == origin
        &&& same_identity(items@[i], start[i])
        &&& items@[i].reason@ == install_reason_spec(
            (Match { reason: start[i].reason, ..items@[i] }),
            reasons@[i],
        )
    } by {
        assert(mid[i].reason == start[i].reason);
        assert((Match { reason: start[i].reason, ..items@[i] }) == mid[i]);
    }
}

/// Whether a non-DNF install reason names what requires the package
/// (following the cases of `cause_spec`, in its order).
pub open spec fn cause_reads_dependency(item: Match) -> bool {
    let b = item.backend@;
    let role = item.role;
    if b == "Flatpak"@ || b == "Snap"@ || b == "Gear Lever"@ || b == "AppImage"@ || b
        == "Standalone"@ || b == "Container Export"@ || b == "Homebrew"@ || b == "Homebrew Cask"@
        || b == "Cargo"@ || b == "Pipx"@ || b == "UV Tool"@ || b == "NPM"@ || b == "Nix"@ || b
        == "Nix Legacy"@ || b == "Guix"@ || b == "Conda"@ || b == "Micromamba"@ || b
        == "RPM-OSTree"@ || b == "RPM"@ || b == "APT-RPM"@ || b == "Slackware"@ || b == "Swupd"@
        || b == "Swupd 3rd-party"@ {
        false
    } else if b == "APK"@ {
        role != Role::Explicit
    } else if b == "OPKG"@ && (role == Role::Explicit || role == Role::Dependency) {
        false
    } else if b == "XBPS"@ {
        role != Role::Explicit
    } else if b == "Portage"@ {
        false
    } else if b == "Eopkg"@ {
        role != Role::Explicit
    } else {
        role.is_dependency_spec()
    }
}

/// Whether an item's install reason names what requires it, so that the
/// package it depends on is worth asking for.
pub open spec fn cause_needed_spec(item: Match) -> bool {
    if item.reason@.len() > 0 {
        false
    } else if item.backend@ == "DNF"@ {
        item.role.is_dependency_spec()
    } else {
        cause_reads_dependency(item)
    }
}

pub fn cause_needed(item: &Match) -> (r: bool)
    ensures
        r == cause_needed_spec(*item),
{
    let b = item.backend.as_str();
    let role = item.role;
    if !item.reason.as_str().is_empty() {
        false
    } else if str_eq(b, "DNF") {
        role.is_dependency()
    } else if str_eq(b, "Flatpak") || str_eq(b, "Snap") || str_eq(b, "Gear Lever") || str_eq(
        b,
        "AppImage",
    ) || str_eq(b, "Standalone") || str_eq(b, "Container Export") || str_eq(b, "Homebrew")
        || str_eq(b, "Homebrew Cask") || str_eq(b, "Cargo") || str_eq(b, "Pipx") || str_eq(
        b,
        "UV Tool",
    ) || str_eq(b, "NPM") || str_eq(b, "Nix") || str_eq(b, "Nix Legacy") || str_eq(b, "Guix")
        || str_eq(b, "Conda") || str_eq(b, "Micromamba") || str_eq(b, "RPM-OSTree") || str_eq(
        b,
        "RPM",
    ) || str_eq(b, "APT-RPM") || str_eq(b, "Slackware") || str_eq(b, "Swupd") || str_eq(
        b,
        "Swupd 3rd-party",
    ) {
        false
    } else if str_eq(b, "APK") {
        role != Role::Explicit
    } else if str_eq(b, "OPKG") && (role == Role::Explicit || role == Role::Dependency) {
        false
    } else if str_eq(b, "XBPS") {
        role != Role::Explicit
    } else if str_eq(b, "Portage") {
        false
    } else if str_eq(b, "Eopkg") {
        role != Role::Explicit
    } else {
        role.is_dependency()
    }
}

/// What requires a package is read only where the reason names it: when
/// `cause_needed` says no, the reason is the same whatever the dependency
/// query answered.
pub proof fn reason_ignores_unneeded_cause(item: Match, facts: ReasonFacts, cause: Option<String>)
    requires
        !cause_needed_spec(item),
    ensures
        install_reason_spec(item, facts) == install_reason_spec(
            item,
            ReasonFacts { dependency_cause: cause, ..facts },
        ),
{
    let other = ReasonFacts { dependency_cause: cause, ..facts };
    let channel = tracking_channel(lines_spec(facts.snap_info@));
    assert(tracking_channel(lines_spec(other.snap_info@)) == channel);
    assert(history_of(item, facts) == history_of(item, other));
}

} // verus!
