//! Removal previews: what each package manager's dry run says a removal
//! would do, and how risky the whole selection is.
use crate::command::{combined_spec, CommandResult, CommandStatus};
use crate::lines::{
    ascii_lower_chars, ascii_lower_seq, first_word, first_word_of, lines_of, lines_spec,
};
use crate::model::{exact_model, nul, texts, Impact, Match, Preview, PreviewModel, PreviewStatus};
use crate::text::{
    chars_eq, chars_of, owned, push_str, slice_chars, starts_with_chars, str_eq, string_of,
    trim_chars, trim_spec,
};
use crate::matching::{
    capture_all, capture_first, is_json, json_parses, regex_group, regex_groups,
};
use crate::lines::{words_of, words_spec};
use crate::fingerprint::{fingerprint, fingerprint_spec};
use crate::removal::{
    cleanup_for, cleanup_requested, ids_of, portage_atom, portage_atom_of, v2, v3, v4, words,
};
use crate::sorting::{sort_dedup, sort_unique, sorted_set_of};
use crate::util::{deep, package_base, package_base_spec, views};
use vstd::prelude::*;

verus! {

// ---------------------------------------------------------------------------
// Building previews
// ---------------------------------------------------------------------------

/// A preview with no plan: only a status, an impact, blockers and notes.
pub open spec fn note_model(
    status: PreviewStatus,
    impact: Impact,
    blockers: Seq<Seq<char>>,
    notes: Seq<Seq<char>>,
) -> PreviewModel {
    PreviewModel {
        status,
        impact,
        planned: Seq::empty(),
        unused: Seq::empty(),
        protected: Seq::empty(),
        blockers,
        notes,
        fingerprint: Seq::empty(),
    }
}

/// No reliable preview: the plan is unknown, with a note saying why.
pub open spec fn unknown_model(note: Seq<char>) -> PreviewModel {
    note_model(PreviewStatus::Unknown, Impact::Unknown, Seq::empty(), seq![note])
}

/// The removal must not go ahead, for the reason given.
pub open spec fn blocked_model(note: Seq<char>) -> PreviewModel {
    note_model(PreviewStatus::Blocked, Impact::Blocked, seq![note], Seq::empty())
}

fn make_preview(
    status: PreviewStatus,
    impact: Impact,
    blockers: Vec<String>,
    notes: Vec<String>,
) -> (r: Preview)
    ensures
        r@ == note_model(status, impact, texts(blockers@), texts(notes@)),
{
    let r = Preview {
        status,
        impact,
        planned_removals: Vec::new(),
        unused_dependencies: Vec::new(),
        protected: Vec::new(),
        blockers,
        notes,
        fingerprint: String::new(),
    };
    assert(texts(r.planned_removals@) =~= Seq::<Seq<char>>::empty());
    assert(texts(r.unused_dependencies@) =~= Seq::<Seq<char>>::empty());
    assert(texts(r.protected@) =~= Seq::<Seq<char>>::empty());
    r
}

fn single(s: String) -> (r: Vec<String>)
    ensures
        texts(r@) == seq![s@],
{
    let mut v = Vec::new();
    v.push(s);
    assert(texts(v@) =~= seq![s@]);
    v
}

fn none() -> (r: Vec<String>)
    ensures
        texts(r@) == Seq::<Seq<char>>::empty(),
{
    let v = Vec::new();
    assert(texts(v@) =~= Seq::<Seq<char>>::empty());
    v
}

/// An unknown preview with a note.
pub fn unknown(note: String) -> (r: Preview)
    ensures
        r@ == unknown_model(note@),
{
    make_preview(PreviewStatus::Unknown, Impact::Unknown, none(), single(note))
}

/// A blocked preview with its blocker.
pub fn blocked(note: String) -> (r: Preview)
    ensures
        r@ == blocked_model(note@),
{
    make_preview(PreviewStatus::Blocked, Impact::Blocked, single(note), none())
}

/// The first line that is not blank.
pub open spec fn first_nonblank(lines: Seq<Seq<char>>) -> Option<Seq<char>>
    decreases lines.len(),
{
    if lines.len() == 0 {
        None
    } else if trim_spec(lines[0]).len() > 0 {
        Some(lines[0])
    } else {
        first_nonblank(lines.drop_first())
    }
}

/// The first non-blank line of a manager's output, at most 240 characters
/// of it.
pub open spec fn failure_detail(text: Seq<char>) -> Seq<char> {
    let line = match first_nonblank(lines_spec(text)) {
        Some(l) => l,
        None => "no diagnostic output"@,
    };
    if line.len() > 240 {
        line.take(240)
    } else {
        line
    }
}

/// The manager could not preview the removal; its first diagnostic line is
/// the blocker.
pub open spec fn failed_model(text: Seq<char>, manager: Seq<char>) -> PreviewModel {
    note_model(
        PreviewStatus::Failed,
        Impact::Unknown,
        seq![manager + " could not preview the removal: "@ + failure_detail(text)],
        Seq::empty(),
    )
}

pub open spec fn result_text(result: CommandResult) -> Seq<char> {
    combined_spec(result.stdout@, result.stderr@)
}

fn failure_detail_of(text: &str) -> (r: String)
    ensures
        r@ == failure_detail(text@),
{
    let cs = chars_of(text);
    let lines = lines_of(&cs);
    let ghost ls = deep(lines@);
    let mut i: usize = 0;
    let mut found: Option<usize> = None;
    assert(ls.skip(0) =~= ls);
    while i < lines.len()
        invariant_except_break
            found is None,
        invariant
            i <= lines@.len(),
            ls == deep(lines@),
            first_nonblank(ls) == first_nonblank(ls.skip(i as int)),
        ensures
            match found {
                Some(k) => k < lines@.len() && first_nonblank(ls) == Some(lines@[k as int]@),
                None => first_nonblank(ls) is None,
            },
        decreases lines@.len() - i,
    {
        let t = trim_chars(&lines[i]);
        assert(ls.skip(i as int)[0] == lines@[i as int]@);
        if t.len() > 0 {
            found = Some(i);
            break;
        }
        assert(ls.skip(i as int).drop_first() =~= ls.skip(i + 1));
        i = i + 1;
    }
    proof {
        if found is None {
            assert(ls.skip(lines@.len() as int) =~= Seq::<Seq<char>>::empty());
        }
    }
    let line: Vec<char> = match found {
        Some(k) => copy_line(&lines[k]),
        None => chars_of("no diagnostic output"),
    };
    if line.len() > 240 {
        let cut = slice_chars(&line, 0, 240);
        assert(cut@ =~= line@.take(240));
        string_of(&cut)
    } else {
        string_of(&line)
    }
}

fn copy_line(v: &Vec<char>) -> (r: Vec<char>)
    ensures
        r@ == v@,
{
    crate::text::copy_chars(v)
}

/// A failed preview: the manager's first diagnostic line as the blocker.
pub fn failed(result: &CommandResult, manager: &str) -> (r: Preview)
    ensures
        r@ == failed_model(result_text(*result), manager@),
{
    let text = result.combined();
    let detail = failure_detail_of(text.as_str());
    let mut blocker = owned(manager);
    push_str(&mut blocker, " could not preview the removal: ");
    push_str(&mut blocker, detail.as_str());
    make_preview(PreviewStatus::Failed, Impact::Unknown, single(blocker), none())
}

// ---------------------------------------------------------------------------
// Reading dry-run output
// ---------------------------------------------------------------------------

/// Whether a lowercased line starts with one of the headings.
pub open spec fn heading_match(lower: Seq<char>, headings: Seq<Seq<char>>) -> bool {
    exists|i: int| 0 <= i < headings.len() && #[trigger] headings[i].is_prefix_of(lower)
}

/// A name made of dashes only (a table rule).
pub open spec fn all_dashes(s: Seq<char>) -> bool {
    forall|i: int| 0 <= i < s.len() ==> s[i] == '-'
}

/// A line ends a section when it is blank, or when it starts in the first
/// column and ends with a colon.
pub open spec fn ends_section(line: Seq<char>) -> bool {
    let clean = trim_spec(line);
    clean.len() == 0 || (!(line.len() > 0 && line[0] == ' ') && clean.last() == ':')
}

/// One line of a section scan: whether a section is open after it, and the
/// names found so far.
pub open spec fn section_step(
    state: (bool, Seq<Seq<char>>),
    line: Seq<char>,
    headings: Seq<Seq<char>>,
) -> (bool, Seq<Seq<char>>) {
    let (active, found) = state;
    let clean = trim_spec(line);
    if heading_match(ascii_lower_seq(clean), headings) {
        (true, found)
    } else if active && ends_section(line) {
        (false, found)
    } else if active {
        let name = first_word(clean);
        if name.len() > 0 && name[0] != '=' && !all_dashes(name) {
            (true, found.push(name))
        } else {
            (true, found)
        }
    } else {
        (false, found)
    }
}

pub open spec fn section_scan(lines: Seq<Seq<char>>, headings: Seq<Seq<char>>) -> (
    bool,
    Seq<Seq<char>>,
)
    decreases lines.len(),
{
    if lines.len() == 0 {
        (false, Seq::empty())
    } else {
        section_step(section_scan(lines.drop_last(), headings), lines.last(), headings)
    }
}

/// The first word of every line inside a section opened by one of the
/// headings (compared case-insensitively at the start of the trimmed
/// line), skipping rules and `=` lines.
pub open spec fn lines_after_spec(text: Seq<char>, headings: Seq<Seq<char>>) -> Seq<Seq<char>> {
    section_scan(lines_spec(text), headings).1
}

fn matches_heading(lower: &Vec<char>, headings: &[&str]) -> (r: bool)
    ensures
        r == heading_match(lower@, views(headings@)),
{
    for i in 0..headings.len()
        invariant
            forall|j: int| 0 <= j < i ==> !(#[trigger] views(headings@)[j]).is_prefix_of(lower@),
    {
        let h = chars_of(headings[i]);
        assert(views(headings@)[i as int] == headings@[i as int]@);
        if starts_with_chars(lower, &h) {
            return true;
        }
    }
    false
}

fn dashes_only(s: &Vec<char>) -> (r: bool)
    ensures
        r == all_dashes(s@),
{
    for i in 0..s.len()
        invariant
            forall|j: int| 0 <= j < i ==> s@[j] == '-',
    {
        if s[i] != '-' {
            return false;
        }
    }
    true
}

fn ends_section_exec(line: &Vec<char>, clean: &Vec<char>) -> (r: bool)
    requires
        clean@ == trim_spec(line@),
    ensures
        r == ends_section(line@),
{
    clean.len() == 0 || (!(line.len() > 0 && line[0] == ' ') && clean[clean.len() - 1] == ':')
}

/// Names listed under the given headings of a manager's output.
pub fn lines_after(text: &str, headings: &[&str]) -> (r: Vec<String>)
    ensures
        texts(r@) == lines_after_spec(text@, views(headings@)),
{
    let cs = chars_of(text);
    let lines = lines_of(&cs);
    let ghost ls = deep(lines@);
    let ghost hs = views(headings@);
    let mut active = false;
    let mut found: Vec<String> = Vec::new();
    assert(ls.take(0) =~= Seq::<Seq<char>>::empty());
    assert(texts(found@) =~= Seq::<Seq<char>>::empty());
    for i in 0..lines.len()
        invariant
            ls == deep(lines@),
            hs == views(headings@),
            section_scan(ls.take(i as int), hs) == (active, texts(found@)),
    {
        let line = &lines[i];
        proof {
            assert(ls.take(i + 1).drop_last() =~= ls.take(i as int));
            assert(ls.take(i + 1).last() == line@);
        }
        let clean = trim_chars(line);
        let lower = ascii_lower_chars(&clean);
        if matches_heading(&lower, headings) {
            active = true;
        } else if active && ends_section_exec(line, &clean) {
            active = false;
        } else if active {
            let name = first_word_of(&clean);
            if name.len() > 0 && name[0] != '=' && !dashes_only(&name) {
                let ghost before = found@;
                found.push(string_of(&name));
                assert(texts(found@) =~= texts(before).push(name@));
            }
        }
    }
    assert(ls.take(lines@.len() as int) =~= ls);
    found
}

/// The names in `names` whose package base is not the base of a requested id.
pub open spec fn without_bases(names: Seq<Seq<char>>, ids: Seq<Seq<char>>) -> Seq<Seq<char>>
    decreases names.len(),
{
    if names.len() == 0 {
        names
    } else {
        let rest = without_bases(names.drop_last(), ids);
        if exists|i: int|
            0 <= i < ids.len() && package_base_spec(#[trigger] ids[i]) == package_base_spec(
                names.last(),
            ) {
            rest
        } else {
            rest.push(names.last())
        }
    }
}

/// The names in `names` that are not themselves requested ids.
pub open spec fn without_ids(names: Seq<Seq<char>>, ids: Seq<Seq<char>>) -> Seq<Seq<char>>
    decreases names.len(),
{
    if names.len() == 0 {
        names
    } else {
        let rest = without_ids(names.drop_last(), ids);
        if ids.contains(names.last()) {
            rest
        } else {
            rest.push(names.last())
        }
    }
}

fn bases_of(ids: &[String]) -> (r: Vec<String>)
    ensures
        texts(r@) == texts(ids@).map_values(|s: Seq<char>| package_base_spec(s)),
{
    let mut out: Vec<String> = Vec::new();
    for i in 0..ids.len()
        invariant
            texts(out@) == texts(ids@.take(i as int)).map_values(
                |s: Seq<char>| package_base_spec(s),
            ),
    {
        let ghost before = out@;
        out.push(package_base(ids[i].as_str()));
        assert(texts(out@) =~= texts(before).push(package_base_spec(ids@[i as int]@)));
        assert(texts(ids@.take(i + 1)).map_values(|s: Seq<char>| package_base_spec(s))
            =~= texts(ids@.take(i as int)).map_values(|s: Seq<char>| package_base_spec(s)).push(
            package_base_spec(ids@[i as int]@),
        ));
    }
    assert(ids@.take(ids@.len() as int) =~= ids@);
    out
}

fn contains_text(v: &Vec<String>, s: &str) -> (r: bool)
    ensures
        r == texts(v@).contains(s@),
{
    for i in 0..v.len()
        invariant
            forall|j: int| 0 <= j < i ==> #[trigger] v@[j]@ != s@,
    {
        if str_eq(v[i].as_str(), s) {
            assert(texts(v@)[i as int] == s@);
            return true;
        }
    }
    assert forall|j: int| 0 <= j < texts(v@).len() implies texts(v@)[j] != s@ by {
        assert(texts(v@)[j] == v@[j]@);
    }
    false
}

/// Drops the names whose package base was requested.
fn drop_requested_bases(names: Vec<String>, ids: &[String]) -> (r: Vec<String>)
    ensures
        texts(r@) == without_bases(texts(names@), texts(ids@)),
{
    let bases = bases_of(ids);
    let mut out: Vec<String> = Vec::new();
    assert(texts(names@).take(0) =~= Seq::<Seq<char>>::empty());
    for i in 0..names.len()
        invariant
            texts(bases@) == texts(ids@).map_values(|s: Seq<char>| package_base_spec(s)),
            texts(out@) == without_bases(texts(names@).take(i as int), texts(ids@)),
    {
        let ghost t = texts(names@).take(i + 1);
        proof {
            assert(t.drop_last() =~= texts(names@).take(i as int));
            assert(t.last() == names@[i as int]@);
        }
        let base = package_base(names[i].as_str());
        let requested = contains_text(&bases, base.as_str());
        proof {
            let ids_v = texts(ids@);
            if requested {
                let j = choose|j: int| 0 <= j < texts(bases@).len() && texts(bases@)[j] == base@;
                assert(package_base_spec(ids_v[j]) == package_base_spec(t.last()));
            } else {
                assert forall|j: int| 0 <= j < ids_v.len() implies package_base_spec(
                    #[trigger] ids_v[j],
                ) != package_base_spec(t.last()) by {
                    assert(texts(bases@)[j] == package_base_spec(ids_v[j]));
                }
            }
        }
        if !requested {
            let ghost before = out@;
            out.push(names[i].clone());
            assert(texts(out@) =~= texts(before).push(names@[i as int]@));
        }
    }
    assert(texts(names@).take(names@.len() as int) =~= texts(names@));
    out
}

/// Drops the names that were requested themselves.
fn drop_requested(names: &Vec<String>, ids: &Vec<String>) -> (r: Vec<String>)
    ensures
        texts(r@) == without_ids(texts(names@), texts(ids@)),
{
    let mut out: Vec<String> = Vec::new();
    assert(texts(names@).take(0) =~= Seq::<Seq<char>>::empty());
    for i in 0..names.len()
        invariant
            texts(out@) == without_ids(texts(names@).take(i as int), texts(ids@)),
    {
        let ghost t = texts(names@).take(i + 1);
        proof {
            assert(t.drop_last() =~= texts(names@).take(i as int));
            assert(t.last() == names@[i as int]@);
        }
        if !contains_text(ids, names[i].as_str()) {
            let ghost before = out@;
            out.push(names[i].clone());
            assert(texts(out@) =~= texts(before).push(names@[i as int]@));
        }
    }
    assert(texts(names@).take(names@.len() as int) =~= texts(names@));
    out
}

fn copy_texts(v: &[String]) -> (r: Vec<String>)
    ensures
        texts(r@) == texts(v@),
{
    let mut out: Vec<String> = Vec::new();
    for i in 0..v.len()
        invariant
            texts(out@) == texts(v@.take(i as int)),
    {
        let ghost before = out@;
        out.push(v[i].clone());
        assert(texts(out@) =~= texts(before).push(v@[i as int]@));
        assert(texts(v@.take(i + 1)) =~= texts(v@.take(i as int)).push(v@[i as int]@));
    }
    assert(v@.take(v@.len() as int) =~= v@);
    out
}

/// An exact plan with the given unused dependencies.
pub open spec fn exact_with_unused(planned: Seq<Seq<char>>, unused: Seq<Seq<char>>) -> PreviewModel {
    PreviewModel {
        status: PreviewStatus::Exact,
        impact: Impact::Low,
        planned,
        unused,
        protected: Seq::empty(),
        blockers: Seq::empty(),
        notes: Seq::empty(),
        fingerprint: Seq::empty(),
    }
}

fn exact_unused(planned: Vec<String>, unused: Vec<String>) -> (r: Preview)
    ensures
        r@ == exact_with_unused(texts(planned@), texts(unused@)),
{
    let mut p = Preview::exact(planned);
    p.unused_dependencies = unused;
    p
}

pub open spec fn dnf_headings() -> Seq<Seq<char>> {
    seq!["removing:"@, "removing dependent packages:"@, "removing unused dependencies:"@]
}

pub open spec fn dnf_unused_headings() -> Seq<Seq<char>> {
    seq!["removing unused dependencies:"@]
}

/// A line inside a section of DNF's plan: indented, not blank, and not a
/// removal heading itself.
pub open spec fn dnf_section_line(line: Seq<char>) -> bool {
    &&& line.len() > 0
    &&& line[0] == ' '
    &&& trim_spec(line).len() > 0
    &&& !"removing"@.is_prefix_of(ascii_lower_seq(trim_spec(line)))
}

/// The package a line names: its first word, when that is not a rule or
/// an `=` line.
pub open spec fn named_package(line: Seq<char>) -> Option<Seq<char>> {
    let name = first_word(trim_spec(line));
    if name.len() > 0 && name[0] != '=' && !all_dashes(name) {
        Some(name)
    } else {
        None
    }
}

proof fn lemma_scan_next(ls: Seq<Seq<char>>, k: int, headings: Seq<Seq<char>>)
    requires
        0 <= k < ls.len(),
    ensures
        section_scan(ls.take(k + 1), headings) == section_step(section_scan(ls.take(k), headings), ls[k], headings),
{
    assert(ls.take(k + 1).drop_last() =~= ls.take(k));
    assert(ls.take(k + 1).last() == ls[k]);
}

proof fn lemma_scan_keeps(ls: Seq<Seq<char>>, n: int, m: int, headings: Seq<Seq<char>>, x: Seq<char>)
    requires
        0 <= n <= m <= ls.len(),
        section_scan(ls.take(n), headings).1.contains(x),
    ensures
        section_scan(ls.take(m), headings).1.contains(x),
    decreases m - n,
{
    if n < m {
        lemma_scan_next(ls, n, headings);
        let before = section_scan(ls.take(n), headings).1;
        let after = section_scan(ls.take(n + 1), headings).1;
        assert(after.contains(x)) by {
            let i = choose|i: int| 0 <= i < before.len() && before[i] == x;
            if after != before {
                assert(after == before.push(first_word(trim_spec(ls[n]))));
                assert(after[i] == x);
            }
        }
        lemma_scan_keeps(ls, n + 1, m, headings, x);
    }
}

/// DNF removes every package it lists, so all of them are part of the
/// plan: every package named on a line of a `Removing:`, `Removing
/// dependent packages:` or `Removing unused dependencies:` section of DNF's
/// output is among the planned removals, and the plan is then exact.
pub proof fn dnf_plans_dependent_packages(
    ids: Seq<Seq<char>>,
    result: CommandResult,
    manager: Seq<char>,
    i: int,
    j: int,
)
    requires
        0 <= i < j < lines_spec(result_text(result)).len(),
        ({
            let heading = ascii_lower_seq(trim_spec(lines_spec(result_text(result))[i]));
            ||| "removing:"@.is_prefix_of(heading)
            ||| "removing dependent packages:"@.is_prefix_of(heading)
            ||| "removing unused dependencies:"@.is_prefix_of(heading)
        }),
        forall|k: int| i < k <= j ==> dnf_section_line(#[trigger] lines_spec(result_text(result))[k]),
        named_package(lines_spec(result_text(result))[j]) is Some,
    ensures
        dnf_model(ids, result, manager).status == PreviewStatus::Exact,
        dnf_model(ids, result, manager).planned.contains(
            named_package(lines_spec(result_text(result))[j])->Some_0,
        ),
{
    reveal_strlit("removing");
    reveal_strlit("removing:");
    reveal_strlit("removing dependent packages:");
    reveal_strlit("removing unused dependencies:");
    let ls = lines_spec(result_text(result));
    let h = dnf_headings();
    let lower = ascii_lower_seq(trim_spec(ls[i]));
    assert(h[0].is_prefix_of(lower) || h[1].is_prefix_of(lower) || h[2].is_prefix_of(lower));
    assert(heading_match(lower, h));
    lemma_scan_next(ls, i, h);
    assert(section_scan(ls.take(i + 1), h).0);
    assert(forall|q: int| 0 <= q < h.len() ==> "removing"@.is_prefix_of(#[trigger] h[q]));
    lemma_section_stays_open(ls, i, j - 1, h);
    lemma_scan_next(ls, j, h);
    lemma_body_line(ls[j], h);
    let name = named_package(ls[j])->Some_0;
    assert(section_scan(ls.take(j + 1), h).1.contains(name)) by {
        let f = section_scan(ls.take(j + 1), h).1;
        assert(f == section_scan(ls.take(j), h).1.push(name));
        assert(f[f.len() - 1] == name);
    }
    lemma_scan_keeps(ls, j + 1, ls.len() as int, h, name);
    assert(ls.take(ls.len() as int) =~= ls);
    let all = lines_after_spec(result_text(result), h);
    assert(all.contains(name));
    assert(all.len() > 0);
}

proof fn lemma_section_stays_open(ls: Seq<Seq<char>>, i: int, k: int, h: Seq<Seq<char>>)
    requires
        0 <= i <= k < ls.len(),
        section_scan(ls.take(i + 1), h).0,
        "removing"@.len() == 8,
        forall|q: int| 0 <= q < h.len() ==> "removing"@.is_prefix_of(#[trigger] h[q]),
        forall|q: int| i < q <= k ==> dnf_section_line(#[trigger] ls[q]),
    ensures
        section_scan(ls.take(k + 1), h).0,
    decreases k - i,
{
    if k > i {
        lemma_section_stays_open(ls, i, k - 1, h);
        lemma_scan_next(ls, k, h);
        lemma_body_line(ls[k], h);
    }
}

proof fn lemma_body_line(line: Seq<char>, h: Seq<Seq<char>>)
    requires
        dnf_section_line(line),
        "removing"@.len() == 8,
        forall|q: int| 0 <= q < h.len() ==> "removing"@.is_prefix_of(#[trigger] h[q]),
    ensures
        !heading_match(ascii_lower_seq(trim_spec(line)), h),
        !ends_section(line),
{
    let lower = ascii_lower_seq(trim_spec(line));
    if heading_match(lower, h) {
        let q = choose|q: int| 0 <= q < h.len() && #[trigger] h[q].is_prefix_of(lower);
        assert("removing"@.is_prefix_of(h[q]));
        assert("removing"@.is_prefix_of(lower)) by {
            assert forall|c: int| 0 <= c < 8 implies lower[c] == "removing"@[c] by {
                assert(h[q][c] == "removing"@[c]);
            }
        }
    }
}

/// DNF's plan: the packages under its removal headings. DNF answers a
/// declined `--assumeno` with a failure status even for a valid plan, so
/// only an empty plan counts as a failure (or a timeout).
pub open spec fn dnf_model(ids: Seq<Seq<char>>, result: CommandResult, manager: Seq<char>) -> PreviewModel {
    let text = result_text(result);
    let all = lines_after_spec(text, dnf_headings());
    let unused = lines_after_spec(text, dnf_unused_headings());
    if all.len() == 0 {
        if result.status == CommandStatus::Timeout {
            unknown_model("DNF removal preview timed out"@)
        } else {
            failed_model(text, manager)
        }
    } else {
        exact_with_unused(all, without_bases(unused, ids))
    }
}

pub fn dnf_preview(ids: &[String], result: &CommandResult, manager: &str) -> (r: Preview)
    ensures
        r@ == dnf_model(texts(ids@), *result, manager@),
{
    let text = result.combined();
    let headings: [&str; 3] = [
        "removing:",
        "removing dependent packages:",
        "removing unused dependencies:",
    ];
    let unused_heading: [&str; 1] = ["removing unused dependencies:"];
    assert(views(headings@) =~= dnf_headings());
    assert(views(unused_heading@) =~= dnf_unused_headings());
    let all = lines_after(text.as_str(), &headings);
    let unused = lines_after(text.as_str(), &unused_heading);
    if all.len() == 0 {
        assert(texts(all@).len() == 0);
        if result.status == CommandStatus::Timeout {
            return unknown(owned("DNF removal preview timed out"));
        } else {
            return failed(result, manager);
        }
    }
    let kept = drop_requested_bases(unused, ids);
    exact_unused(all, kept)
}

/// The package named on each `Remv` line of APT's simulation.
pub open spec fn apt_removals(lines: Seq<Seq<char>>) -> Seq<Seq<char>>
    decreases lines.len(),
{
    if lines.len() == 0 {
        Seq::empty()
    } else {
        let rest = apt_removals(lines.drop_last());
        let line = lines.last();
        if "Remv "@.is_prefix_of(line) && first_word(line.skip(5)).len() > 0 {
            rest.push(first_word(line.skip(5)))
        } else {
            rest
        }
    }
}

pub open spec fn apt_noop_model() -> PreviewModel {
    note_model(
        PreviewStatus::NoOp,
        Impact::Low,
        Seq::empty(),
        seq!["APT reported that nothing would be removed"@],
    )
}

/// APT's simulated plan; nothing to remove is a no-op, not a failure.
pub open spec fn apt_model(result: CommandResult) -> PreviewModel {
    if result.status != CommandStatus::Success {
        failed_model(result_text(result), "APT"@)
    } else {
        let removals = apt_removals(lines_spec(result.stdout@));
        if removals.len() == 0 {
            apt_noop_model()
        } else {
            exact_model(removals)
        }
    }
}

pub fn apt_preview(result: &CommandResult) -> (r: Preview)
    ensures
        r@ == apt_model(*result),
{
    if !result.ok() {
        return failed(result, "APT");
    }
    let cs = chars_of(result.stdout.as_str());
    let lines = lines_of(&cs);
    let ghost ls = deep(lines@);
    let prefix = chars_of("Remv ");
    proof {
        reveal_strlit("Remv ");
    }
    let mut removals: Vec<String> = Vec::new();
    assert(ls.take(0) =~= Seq::<Seq<char>>::empty());
    assert(texts(removals@) =~= Seq::<Seq<char>>::empty());
    for i in 0..lines.len()
        invariant
            ls == deep(lines@),
            prefix@ == "Remv "@,
            prefix@.len() == 5,
            texts(removals@) == apt_removals(ls.take(i as int)),
    {
        let line = &lines[i];
        proof {
            assert(ls.take(i + 1).drop_last() =~= ls.take(i as int));
            assert(ls.take(i + 1).last() == line@);
        }
        if starts_with_chars(line, &prefix) {
            let rest = slice_chars(line, 5, line.len());
            assert(rest@ =~= line@.skip(5));
            let name = first_word_of(&rest);
            if name.len() > 0 {
                let ghost before = removals@;
                removals.push(string_of(&name));
                assert(texts(removals@) =~= texts(before).push(name@));
            }
        }
    }
    assert(ls.take(lines@.len() as int) =~= ls);
    if removals.len() == 0 {
        make_preview(
            PreviewStatus::NoOp,
            Impact::Low,
            none(),
            single(owned("APT reported that nothing would be removed")),
        )
    } else {
        Preview::exact(removals)
    }
}

/// The trimmed non-blank lines.
pub open spec fn nonblank_lines(lines: Seq<Seq<char>>) -> Seq<Seq<char>>
    decreases lines.len(),
{
    if lines.len() == 0 {
        Seq::empty()
    } else {
        let rest = nonblank_lines(lines.drop_last());
        if trim_spec(lines.last()).len() > 0 {
            rest.push(trim_spec(lines.last()))
        } else {
            rest
        }
    }
}

/// Pacman's printed plan, one package per line.
pub open spec fn pacman_model(result: CommandResult) -> PreviewModel {
    if result.status != CommandStatus::Success {
        failed_model(result_text(result), "Pacman"@)
    } else {
        let planned = nonblank_lines(lines_spec(result.stdout@));
        if planned.len() == 0 {
            failed_model(result_text(result), "Pacman"@)
        } else {
            exact_model(planned)
        }
    }
}

pub fn pacman_preview(result: &CommandResult) -> (r: Preview)
    ensures
        r@ == pacman_model(*result),
{
    if !result.ok() {
        return failed(result, "Pacman");
    }
    let cs = chars_of(result.stdout.as_str());
    let lines = lines_of(&cs);
    let ghost ls = deep(lines@);
    let mut planned: Vec<String> = Vec::new();
    assert(ls.take(0) =~= Seq::<Seq<char>>::empty());
    assert(texts(planned@) =~= Seq::<Seq<char>>::empty());
    for i in 0..lines.len()
        invariant
            ls == deep(lines@),
            texts(planned@) == nonblank_lines(ls.take(i as int)),
    {
        proof {
            assert(ls.take(i + 1).drop_last() =~= ls.take(i as int));
            assert(ls.take(i + 1).last() == lines@[i as int]@);
        }
        let t = trim_chars(&lines[i]);
        if t.len() > 0 {
            let ghost before = planned@;
            planned.push(string_of(&t));
            assert(texts(planned@) =~= texts(before).push(t@));
        }
    }
    assert(ls.take(lines@.len() as int) =~= ls);
    if planned.len() == 0 {
        failed(result, "Pacman")
    } else {
        Preview::exact(planned)
    }
}

/// `rpm -e --test`: the requested packages exactly, or blocked by what RPM
/// reported.
pub open spec fn rpm_model(ids: Seq<Seq<char>>, result: CommandResult) -> PreviewModel {
    if result.status == CommandStatus::Success {
        exact_model(ids)
    } else {
        blocked_model(trim_spec(result_text(result)))
    }
}

pub fn rpm_preview(ids: &[String], result: &CommandResult) -> (r: Preview)
    ensures
        r@ == rpm_model(texts(ids@), *result),
{
    if result.ok() {
        Preview::exact(copy_texts(ids))
    } else {
        let text = result.combined();
        let cs = chars_of(text.as_str());
        let t = trim_chars(&cs);
        blocked(string_of(&t))
    }
}

/// A dry run that either accepts the requested packages or fails.
pub open spec fn accepted_model(ids: Seq<Seq<char>>, result: CommandResult, manager: Seq<char>) -> PreviewModel {
    if result.status == CommandStatus::Success {
        exact_model(ids)
    } else {
        failed_model(result_text(result), manager)
    }
}

pub fn rpm_ostree_preview(ids: &[String], result: &CommandResult) -> (r: Preview)
    ensures
        r@ == accepted_model(texts(ids@), *result, "rpm-ostree"@),
{
    if result.ok() {
        Preview::exact(copy_texts(ids))
    } else {
        failed(result, "rpm-ostree")
    }
}

pub fn apt_rpm_preview(ids: &[String], result: &CommandResult) -> (r: Preview)
    ensures
        r@ == accepted_model(texts(ids@), *result, "APT-RPM"@),
{
    if result.ok() {
        Preview::exact(copy_texts(ids))
    } else {
        failed(result, "APT-RPM")
    }
}

/// Homebrew's dry run: the requested formulae or casks, or unknown.
pub open spec fn homebrew_model(ids: Seq<Seq<char>>, result: CommandResult) -> PreviewModel {
    if result.status == CommandStatus::Success {
        exact_model(ids)
    } else {
        unknown_model("Homebrew could not produce a reliable dry-run"@)
    }
}

pub fn homebrew_preview(ids: &[String], result: &CommandResult) -> (r: Preview)
    ensures
        r@ == homebrew_model(texts(ids@), *result),
{
    if result.ok() {
        Preview::exact(copy_texts(ids))
    } else {
        unknown(owned("Homebrew could not produce a reliable dry-run"))
    }
}


// ---------------------------------------------------------------------------
// Plans read with patterns
// ---------------------------------------------------------------------------

fn to_strings(v: &Vec<Vec<char>>) -> (r: Vec<String>)
    ensures
        texts(r@) == deep(v@),
{
    let mut out: Vec<String> = Vec::new();
    for i in 0..v.len()
        invariant
            texts(out@) == deep(v@).take(i as int),
    {
        let ghost before = out@;
        out.push(string_of(&v[i]));
        assert(texts(out@) =~= texts(before).push(v@[i as int]@));
        assert(deep(v@).take(i + 1) =~= deep(v@).take(i as int).push(v@[i as int]@));
    }
    assert(deep(v@).take(v@.len() as int) =~= deep(v@));
    out
}

/// Trailing colons removed.
pub open spec fn trim_end_colons(s: Seq<char>) -> Seq<char>
    decreases s.len(),
{
    if s.len() > 0 && s.last() == ':' {
        trim_end_colons(s.drop_last())
    } else {
        s
    }
}

fn trim_end_colons_exec(s: &str) -> (r: String)
    ensures
        r@ == trim_end_colons(s@),
{
    let cs = chars_of(s);
    let mut end: usize = cs.len();
    assert(cs@.take(end as int) =~= cs@);
    while end > 0 && cs[end - 1] == ':'
        invariant
            end <= cs@.len(),
            trim_end_colons(cs@) == trim_end_colons(cs@.take(end as int)),
        decreases end,
    {
        assert(cs@.take(end as int).drop_last() =~= cs@.take(end - 1));
        end = end - 1;
    }
    let kept = slice_chars(&cs, 0, end);
    assert(kept@ =~= cs@.take(end as int));
    string_of(&kept)
}

/// The first word after `- ` on each line that starts with it.
pub open spec fn dash_items(lines: Seq<Seq<char>>) -> Seq<Seq<char>>
    decreases lines.len(),
{
    if lines.len() == 0 {
        Seq::empty()
    } else {
        let rest = dash_items(lines.drop_last());
        let line = lines.last();
        if "- "@.is_prefix_of(line) && first_word(line.skip(2)).len() > 0 {
            rest.push(first_word(line.skip(2)))
        } else {
            rest
        }
    }
}

fn dash_items_of(text: &str) -> (r: Vec<String>)
    ensures
        texts(r@) == dash_items(lines_spec(text@)),
{
    let cs = chars_of(text);
    let lines = lines_of(&cs);
    let ghost ls = deep(lines@);
    let prefix = chars_of("- ");
    proof {
        reveal_strlit("- ");
    }
    let mut out: Vec<String> = Vec::new();
    assert(ls.take(0) =~= Seq::<Seq<char>>::empty());
    assert(texts(out@) =~= Seq::<Seq<char>>::empty());
    for i in 0..lines.len()
        invariant
            ls == deep(lines@),
            prefix@ == "- "@,
            prefix@.len() == 2,
            texts(out@) == dash_items(ls.take(i as int)),
    {
        let line = &lines[i];
        proof {
            assert(ls.take(i + 1).drop_last() =~= ls.take(i as int));
            assert(ls.take(i + 1).last() == line@);
        }
        if starts_with_chars(line, &prefix) {
            let rest = slice_chars(line, 2, line.len());
            assert(rest@ =~= line@.skip(2));
            let name = first_word_of(&rest);
            if name.len() > 0 {
                let ghost before = out@;
                out.push(string_of(&name));
                assert(texts(out@) =~= texts(before).push(name@));
            }
        }
    }
    assert(ls.take(lines@.len() as int) =~= ls);
    out
}

pub open spec fn apk_pattern() -> Seq<char> {
    "(?i)(?:purging|deleting|removing)\\s+([^\\s(]+)"@
}

/// APK's simulated plan: the packages it reports purging, deleting or
/// removing (`matched`, trailing colons dropped), else its `- name` lines;
/// packages beyond the request are unused dependencies.
pub open spec fn apk_model(ids: Seq<Seq<char>>, result: CommandResult, matched: Seq<Seq<char>>) -> PreviewModel {
    if result.status != CommandStatus::Success {
        failed_model(result_text(result), "APK"@)
    } else {
        let primary = matched.map_values(|m: Seq<char>| trim_end_colons(m));
        let planned = if primary.len() > 0 {
            primary
        } else {
            dash_items(lines_spec(result.stdout@))
        };
        if planned.len() == 0 {
            failed_model(result_text(result), "APK"@)
        } else {
            exact_with_unused(planned, without_ids(planned, ids))
        }
    }
}

/// APK's plan from the pattern matches of its output.
pub fn apk_preview_from(ids: &Vec<String>, result: &CommandResult, matched: &Vec<String>) -> (r:
    Preview)
    ensures
        r@ == apk_model(texts(ids@), *result, texts(matched@)),
{
    if !result.ok() {
        return failed(result, "APK");
    }
    let mut planned: Vec<String> = Vec::new();
    for i in 0..matched.len()
        invariant
            texts(planned@) == texts(matched@).take(i as int).map_values(
                |m: Seq<char>| trim_end_colons(m),
            ),
    {
        let ghost before = planned@;
        planned.push(trim_end_colons_exec(matched[i].as_str()));
        assert(texts(planned@) =~= texts(before).push(trim_end_colons(matched@[i as int]@)));
        assert(texts(matched@).take(i + 1).map_values(|m: Seq<char>| trim_end_colons(m))
            =~= texts(matched@).take(i as int).map_values(|m: Seq<char>| trim_end_colons(m)).push(
            trim_end_colons(matched@[i as int]@),
        ));
    }
    assert(texts(matched@).take(matched@.len() as int) =~= texts(matched@));
    if planned.len() == 0 {
        planned = dash_items_of(result.stdout.as_str());
    }
    if planned.len() == 0 {
        return failed(result, "APK");
    }
    let unused = drop_requested(&planned, ids);
    exact_unused(planned, unused)
}

pub fn apk_preview(ids: &Vec<String>, result: &CommandResult) -> (r: Preview)
    ensures
        r@ == apk_model(texts(ids@), *result, regex_groups(apk_pattern(), result_text(*result))),
{
    let text = result.combined();
    let matched = capture_all("(?i)(?:purging|deleting|removing)\\s+([^\\s(]+)", text.as_str());
    apk_preview_from(ids, result, &matched)
}

pub open spec fn opkg_pattern() -> Seq<char> {
    "(?im)^(?:Removing|Not selecting)\\s+([^\\s.]+)"@
}

/// OPKG's plan: the packages it reports removing or not selecting.
pub open spec fn opkg_model(result: CommandResult, matched: Seq<Seq<char>>) -> PreviewModel {
    if result.status != CommandStatus::Success {
        failed_model(result_text(result), "OPKG"@)
    } else if matched.len() == 0 {
        unknown_model("OPKG did not provide a machine-readable removal plan"@)
    } else {
        exact_model(matched)
    }
}

pub fn opkg_preview_from(result: &CommandResult, matched: Vec<String>) -> (r: Preview)
    ensures
        r@ == opkg_model(*result, texts(matched@)),
{
    if !result.ok() {
        failed(result, "OPKG")
    } else if matched.len() == 0 {
        unknown(owned("OPKG did not provide a machine-readable removal plan"))
    } else {
        Preview::exact(matched)
    }
}

pub fn opkg_preview(result: &CommandResult) -> (r: Preview)
    ensures
        r@ == opkg_model(*result, regex_groups(opkg_pattern(), result_text(*result))),
{
    let text = result.combined();
    let matched = capture_all("(?im)^(?:Removing|Not selecting)\\s+([^\\s.]+)", text.as_str());
    opkg_preview_from(result, matched)
}

pub open spec fn portage_pattern() -> Seq<char> {
    "(?m)^\\s*>>>\\s+([^\\s]+/[^\\s-]+)-[0-9]"@
}

/// Portage's plan: the atoms its pretend run lists for removal; those not
/// requested are unused dependencies.
pub open spec fn portage_model(ids: Seq<Seq<char>>, result: CommandResult, matched: Seq<Seq<char>>) -> PreviewModel {
    if result.status != CommandStatus::Success {
        failed_model(result_text(result), "Portage"@)
    } else if matched.len() == 0 {
        unknown_model("Portage's pretend output did not contain a stable removal list"@)
    } else {
        exact_with_unused(matched, without_ids(matched, ids))
    }
}

pub fn portage_preview_from(ids: &Vec<String>, result: &CommandResult, matched: Vec<String>) -> (r:
    Preview)
    ensures
        r@ == portage_model(texts(ids@), *result, texts(matched@)),
{
    if !result.ok() {
        failed(result, "Portage")
    } else if matched.len() == 0 {
        unknown(owned("Portage's pretend output did not contain a stable removal list"))
    } else {
        let unused = drop_requested(&matched, ids);
        exact_unused(matched, unused)
    }
}

pub fn portage_preview(ids: &Vec<String>, result: &CommandResult) -> (r: Preview)
    ensures
        r@ == portage_model(texts(ids@), *result, regex_groups(portage_pattern(), result.stdout@)),
{
    let matched = capture_all(
        "(?m)^\\s*>>>\\s+([^\\s]+/[^\\s-]+)-[0-9]",
        result.stdout.as_str(),
    );
    portage_preview_from(ids, result, matched)
}

pub open spec fn xbps_pattern() -> Seq<char> {
    "^(.+)-[0-9][^\\s]*_\\d+$"@
}

/// The package token of each line whose second word is `remove`.
pub open spec fn xbps_candidates(lines: Seq<Seq<char>>) -> Seq<Seq<char>>
    decreases lines.len(),
{
    if lines.len() == 0 {
        Seq::empty()
    } else {
        let rest = xbps_candidates(lines.drop_last());
        let fields = words_spec(lines.last());
        if fields.len() > 1 && fields[1] == "remove"@ {
            rest.push(fields[0])
        } else {
            rest
        }
    }
}

/// The names that were found.
pub open spec fn somes(v: Seq<Option<Seq<char>>>) -> Seq<Seq<char>>
    decreases v.len(),
{
    if v.len() == 0 {
        Seq::empty()
    } else {
        match v.last() {
            Some(n) => somes(v.drop_last()).push(n),
            None => somes(v.drop_last()),
        }
    }
}

/// XBPS's plan: the package names (versions stripped, in `stripped`) of
/// the lines it marks `remove`; those not requested are unused.
pub open spec fn xbps_model(ids: Seq<Seq<char>>, result: CommandResult, stripped: Seq<Option<Seq<char>>>) -> PreviewModel {
    if result.status != CommandStatus::Success {
        failed_model(result_text(result), "XBPS"@)
    } else {
        let planned = somes(stripped);
        if planned.len() == 0 {
            unknown_model("XBPS did not provide a parseable removal plan"@)
        } else {
            exact_with_unused(planned, without_ids(planned, ids))
        }
    }
}

pub open spec fn opt_texts(v: Seq<Option<String>>) -> Seq<Option<Seq<char>>> {
    v.map_values(
        |o: Option<String>|
            match o {
                Some(s) => Some(s@),
                None => None,
            },
    )
}

pub fn xbps_preview_from(ids: &Vec<String>, result: &CommandResult, stripped: &Vec<Option<String>>) -> (r:
    Preview)
    ensures
        r@ == xbps_model(texts(ids@), *result, opt_texts(stripped@)),
{
    if !result.ok() {
        return failed(result, "XBPS");
    }
    let ghost st = opt_texts(stripped@);
    let mut planned: Vec<String> = Vec::new();
    assert(st.take(0) =~= Seq::<Option<Seq<char>>>::empty());
    assert(texts(planned@) =~= Seq::<Seq<char>>::empty());
    for i in 0..stripped.len()
        invariant
            st == opt_texts(stripped@),
            texts(planned@) == somes(st.take(i as int)),
    {
        proof {
            assert(st.take(i + 1).drop_last() =~= st.take(i as int));
            assert(st.take(i + 1).last() == st[i as int]);
        }
        match &stripped[i] {
            Some(n) => {
                let ghost before = planned@;
                planned.push(n.clone());
                assert(texts(planned@) =~= texts(before).push(n@));
            },
            None => {},
        }
    }
    assert(st.take(stripped@.len() as int) =~= st);
    if planned.len() == 0 {
        return unknown(owned("XBPS did not provide a parseable removal plan"));
    }
    let unused = drop_requested(&planned, ids);
    exact_unused(planned, unused)
}

fn xbps_candidates_of(text: &str) -> (r: Vec<String>)
    ensures
        texts(r@) == xbps_candidates(lines_spec(text@)),
{
    let cs = chars_of(text);
    let lines = lines_of(&cs);
    let ghost ls = deep(lines@);
    let remove = chars_of("remove");
    let mut out: Vec<String> = Vec::new();
    assert(ls.take(0) =~= Seq::<Seq<char>>::empty());
    assert(texts(out@) =~= Seq::<Seq<char>>::empty());
    for i in 0..lines.len()
        invariant
            ls == deep(lines@),
            remove@ == "remove"@,
            texts(out@) == xbps_candidates(ls.take(i as int)),
    {
        proof {
            assert(ls.take(i + 1).drop_last() =~= ls.take(i as int));
            assert(ls.take(i + 1).last() == lines@[i as int]@);
        }
        let fields = words_of(&lines[i]);
        if fields.len() > 1 && chars_eq(&fields[1], &remove) {
            assert(deep(fields@)[1] == fields@[1]@);
            assert(deep(fields@)[0] == fields@[0]@);
            let ghost before = out@;
            out.push(string_of(&fields[0]));
            assert(texts(out@) =~= texts(before).push(fields@[0]@));
        } else {
            assert(fields@.len() > 1 ==> deep(fields@)[1] == fields@[1]@);
        }
    }
    assert(ls.take(lines@.len() as int) =~= ls);
    out
}

pub fn xbps_preview(ids: &Vec<String>, result: &CommandResult) -> (r: Preview)
    ensures
        r@ == xbps_model(
            texts(ids@),
            *result,
            xbps_candidates(lines_spec(result_text(*result))).map_values(
                |c: Seq<char>| regex_group(xbps_pattern(), c),
            ),
        ),
{
    let text = result.combined();
    let candidates = xbps_candidates_of(text.as_str());
    let ghost cs = texts(candidates@);
    let mut stripped: Vec<Option<String>> = Vec::new();
    for i in 0..candidates.len()
        invariant
            cs == texts(candidates@),
            opt_texts(stripped@) == cs.take(i as int).map_values(
                |c: Seq<char>| regex_group(xbps_pattern(), c),
            ),
    {
        let found = capture_first("^(.+)-[0-9][^\\s]*_\\d+$", candidates[i].as_str());
        let ghost before = stripped@;
        stripped.push(found);
        assert(opt_texts(stripped@) =~= opt_texts(before).push(
            regex_group(xbps_pattern(), candidates@[i as int]@),
        ));
        assert(cs.take(i + 1).map_values(|c: Seq<char>| regex_group(xbps_pattern(), c))
            =~= cs.take(i as int).map_values(|c: Seq<char>| regex_group(xbps_pattern(), c)).push(
            regex_group(xbps_pattern(), candidates@[i as int]@),
        ));
    }
    assert(cs.take(candidates@.len() as int) =~= cs);
    xbps_preview_from(ids, result, &stripped)
}

pub open spec fn zypper_name_pattern() -> Seq<char> {
    "(?i)<solvable\\b[^>]*\\bname=[\\\"']([^\\\"']+)[\\\"'][^>]*(?:\\btransaction=[\\\"'](?:remove|erase)[\\\"']|\\bstatus=[\\\"'](?:remove|erase)[\\\"'])"@
}

pub open spec fn zypper_alternate_pattern() -> Seq<char> {
    "(?i)<solvable\\b[^>]*(?:\\btransaction=[\\\"'](?:remove|erase)[\\\"']|\\bstatus=[\\\"'](?:remove|erase)[\\\"'])[^>]*\\bname=[\\\"']([^\\\"']+)[\\\"']"@
}

pub open spec fn zypper_section_pattern() -> Seq<char> {
    "(?is)<to-remove>(.*?)</to-remove>"@
}

pub open spec fn zypper_solvable_pattern() -> Seq<char> {
    "(?i)<solvable\\b[^>]*\\bname=[\\\"']([^\\\"']+)[\\\"']"@
}

/// Zypper's XML plan: solvables marked for removal (name before or after
/// the marker), else the solvables of its `to-remove` section.
pub open spec fn zypper_model(
    result: CommandResult,
    named: Seq<Seq<char>>,
    alternate: Seq<Seq<char>>,
    section: Option<Seq<Seq<char>>>,
) -> PreviewModel {
    if result.status != CommandStatus::Success {
        failed_model(result_text(result), "Zypper"@)
    } else {
        let planned = if named.len() > 0 {
            named
        } else if alternate.len() > 0 {
            alternate
        } else {
            match section {
                Some(s) => s,
                None => Seq::empty(),
            }
        };
        if planned.len() == 0 {
            failed_model(result_text(result), "Zypper"@)
        } else {
            exact_model(planned)
        }
    }
}

pub open spec fn opt_list(o: Option<Vec<String>>) -> Option<Seq<Seq<char>>> {
    match o {
        Some(v) => Some(texts(v@)),
        None => None,
    }
}

pub fn zypper_preview_from(
    result: &CommandResult,
    named: Vec<String>,
    alternate: Vec<String>,
    section: Option<Vec<String>>,
) -> (r: Preview)
    ensures
        r@ == zypper_model(*result, texts(named@), texts(alternate@), opt_list(section)),
{
    if !result.ok() {
        return failed(result, "Zypper");
    }
    let planned = if named.len() > 0 {
        named
    } else if alternate.len() > 0 {
        alternate
    } else {
        match section {
            Some(s) => s,
            None => none(),
        }
    };
    if planned.len() == 0 {
        failed(result, "Zypper")
    } else {
        Preview::exact(planned)
    }
}

pub fn zypper_preview(result: &CommandResult) -> (r: Preview)
    ensures
        r@ == zypper_model(
            *result,
            regex_groups(zypper_name_pattern(), result.stdout@),
            regex_groups(zypper_alternate_pattern(), result.stdout@),
            match regex_group(zypper_section_pattern(), result.stdout@) {
                Some(removed) => Some(regex_groups(zypper_solvable_pattern(), removed)),
                None => None,
            },
        ),
{
    let out = result.stdout.as_str();
    let named = capture_all(
        "(?i)<solvable\\b[^>]*\\bname=[\\\"']([^\\\"']+)[\\\"'][^>]*(?:\\btransaction=[\\\"'](?:remove|erase)[\\\"']|\\bstatus=[\\\"'](?:remove|erase)[\\\"'])",
        out,
    );
    let alternate = capture_all(
        "(?i)<solvable\\b[^>]*(?:\\btransaction=[\\\"'](?:remove|erase)[\\\"']|\\bstatus=[\\\"'](?:remove|erase)[\\\"'])[^>]*\\bname=[\\\"']([^\\\"']+)[\\\"']",
        out,
    );
    let section = match capture_first("(?is)<to-remove>(.*?)</to-remove>", out) {
        Some(removed) => Some(
            capture_all("(?i)<solvable\\b[^>]*\\bname=[\\\"']([^\\\"']+)[\\\"']", removed.as_str()),
        ),
        None => None,
    };
    zypper_preview_from(result, named, alternate, section)
}

/// Conda's or micromamba's JSON dry run: the requested package when the
/// answer is valid JSON.
pub open spec fn conda_model(id: Seq<char>, result: CommandResult, manager: Seq<char>, parses: bool) -> PreviewModel {
    if result.status != CommandStatus::Success {
        failed_model(result_text(result), manager)
    } else if parses {
        exact_model(seq![id])
    } else {
        unknown_model(manager + " did not return a valid JSON preview"@)
    }
}

pub fn conda_preview_from(id: &String, result: &CommandResult, manager: &str, parses: bool) -> (r:
    Preview)
    ensures
        r@ == conda_model(id@, *result, manager@, parses),
{
    if !result.ok() {
        failed(result, manager)
    } else if parses {
        Preview::exact(single(id.clone()))
    } else {
        let mut note = owned(manager);
        push_str(&mut note, " did not return a valid JSON preview");
        unknown(note)
    }
}

pub fn conda_preview(id: &String, result: &CommandResult, manager: &str) -> (r: Preview)
    ensures
        r@ == conda_model(id@, *result, manager@, json_parses(result.stdout@)),
{
    let parses = is_json(result.stdout.as_str());
    conda_preview_from(id, result, manager, parses)
}


// ---------------------------------------------------------------------------
// Which dry run to ask for, and how to read it
// ---------------------------------------------------------------------------

/// How a dry run's output is read.
#[derive(Debug, Clone, Copy, PartialEq, Eq, Structural)]
pub enum PreviewMethod {
    Dnf,
    Apt,
    AptRpm,
    Pacman,
    Rpm,
    RpmOstree,
    Zypper,
    Apk,
    Opkg,
    Xbps,
    Portage,
    Conda,
    Homebrew,
}

/// A dry run to perform.
pub struct PreviewRun {
    pub program: String,
    pub args: Vec<String>,
    pub method: PreviewMethod,
}

/// Either a preview known without running anything, or the dry run that
/// decides it.
pub enum PreviewStep {
    Ready(Preview),
    Run(PreviewRun),
}

/// A preview step as plain values.
pub enum StepModel {
    Ready(PreviewModel),
    Run(Seq<char>, Seq<Seq<char>>, PreviewMethod),
}

pub open spec fn step_view(s: PreviewStep) -> StepModel {
    match s {
        PreviewStep::Ready(p) => StepModel::Ready(p@),
        PreviewStep::Run(r) => StepModel::Run(r.program@, texts(r.args@), r.method),
    }
}

/// Backends whose removal is exactly what was selected.
pub open spec fn removes_exactly(b: Seq<char>) -> bool {
    b == "Flatpak"@ || b == "Gear Lever"@ || b == "AppImage"@ || b == "Cargo"@ || b == "Pipx"@ || b
        == "UV Tool"@ || b == "NPM"@ || b == "Nix"@ || b == "Nix Legacy"@ || b == "Guix"@
}

/// Backends whose manager has no usable dry run.
pub open spec fn no_dry_run_note(b: Seq<char>) -> Option<Seq<char>> {
    if b == "Standalone"@ {
        Some("no package manager can calculate dependencies for an unmanaged executable"@)
    } else if b == "Slackware"@ {
        Some("Slackware pkgtools does not track dependency relationships"@)
    } else if b == "Eopkg"@ {
        Some("Eopkg's dry-run output is not stable machine-readable transaction data"@)
    } else if b == "Swupd"@ || b == "Swupd 3rd-party"@ {
        Some("Swupd has no read-only bundle-removal transaction"@)
    } else if b == "URPMI"@ || b == "YUM"@ {
        Some(b + " does not expose a reliable machine-readable removal preview"@)
    } else if b == "Snap"@ {
        Some("snapd does not expose a read-only removal transaction"@)
    } else {
        None
    }
}

/// The dry run of a group of one backend, installation and profile: each
/// manager's read-only transaction with all ids, or what is known without
/// one.
pub open spec fn step_spec(items: Seq<Match>, cleanup: bool, dnf: Option<Seq<char>>) -> StepModel {
    let b = items[0].backend@;
    let ids = ids_of(items);
    if b == "DNF"@ {
        match dnf {
            None => StepModel::Ready(unknown_model("DNF is unavailable"@)),
            Some(d) => StepModel::Run(d, seq!["--assumeno"@, "remove"@] + ids, PreviewMethod::Dnf),
        }
    } else if b == "APT"@ {
        StepModel::Run(
            "apt-get"@,
            seq![
                "--simulate"@,
                if cleanup {
                    "purge"@
                } else {
                    "remove"@
                },
            ] + ids,
            PreviewMethod::Apt,
        )
    } else if b == "APT-RPM"@ {
        StepModel::Run("apt-get"@, seq!["--simulate"@, "remove"@] + ids, PreviewMethod::AptRpm)
    } else if b == "Pacman"@ {
        StepModel::Run("pacman"@, seq!["-R"@, "--print-format"@, "%n"@] + ids, PreviewMethod::Pacman)
    } else if b == "RPM"@ {
        StepModel::Run("rpm"@, seq!["-e"@, "--test"@] + ids, PreviewMethod::Rpm)
    } else if b == "RPM-OSTree"@ {
        StepModel::Run("rpm-ostree"@, seq!["uninstall"@, "--dry-run"@] + ids, PreviewMethod::RpmOstree)
    } else if b == "Zypper"@ {
        StepModel::Run(
            "zypper"@,
            seq!["--xmlout"@, "--non-interactive"@, "remove"@, "--dry-run"@] + ids,
            PreviewMethod::Zypper,
        )
    } else if b == "APK"@ {
        StepModel::Run("apk"@, seq!["del"@, "--simulate"@] + ids, PreviewMethod::Apk)
    } else if b == "OPKG"@ {
        StepModel::Run("opkg"@, seq!["--noaction"@, "remove"@] + ids, PreviewMethod::Opkg)
    } else if b == "XBPS"@ {
        StepModel::Run("xbps-remove"@, seq!["--dry-run"@, "--recursive"@] + ids, PreviewMethod::Xbps)
    } else if b == "Portage"@ {
        StepModel::Run(
            "emerge"@,
            seq!["--pretend"@, "--verbose"@, "--depclean"@] + items.map_values(
                |m: Match| portage_atom(m),
            ),
            PreviewMethod::Portage,
        )
    } else if b == "Conda"@ || b == "Micromamba"@ {
        StepModel::Run(
            if b == "Conda"@ {
                "conda"@
            } else {
                "micromamba"@
            },
            seq!["remove"@, "--dry-run"@, "--json"@, "--prefix"@, items[0].profile@, items[0].id@],
            PreviewMethod::Conda,
        )
    } else if b == "Container Export"@ {
        StepModel::Ready(
            blocked_model(
                "this is a host export of an application inside a container; remove it inside that container"@,
            ),
        )
    } else if no_dry_run_note(b) is Some {
        StepModel::Ready(unknown_model(no_dry_run_note(b)->Some_0))
    } else if b == "Homebrew"@ || b == "Homebrew Cask"@ {
        StepModel::Run(
            "brew"@,
            (if b == "Homebrew Cask"@ {
                seq!["uninstall"@, "--dry-run"@, "--cask"@]
            } else {
                seq!["uninstall"@, "--dry-run"@]
            }) + ids,
            PreviewMethod::Homebrew,
        )
    } else if removes_exactly(b) {
        StepModel::Ready(exact_model(ids))
    } else {
        StepModel::Ready(unknown_model(b + " has no supported removal preview"@))
    }
}

fn item_ids(items: &[Match]) -> (r: Vec<String>)
    ensures
        texts(r@) == ids_of(items@),
{
    let mut out: Vec<String> = Vec::new();
    for i in 0..items.len()
        invariant
            texts(out@) == ids_of(items@.take(i as int)),
    {
        let ghost before = out@;
        out.push(items[i].id.clone());
        assert(texts(out@) =~= texts(before).push(items@[i as int].id@));
        assert(ids_of(items@.take(i + 1)) =~= ids_of(items@.take(i as int)).push(
            items@[i as int].id@,
        ));
    }
    assert(items@.take(items@.len() as int) =~= items@);
    out
}

fn run_with(program: &str, front: Vec<String>, items: &[Match], method: PreviewMethod) -> (r:
    PreviewStep)
    ensures
        step_view(r) == StepModel::Run(program@, texts(front@) + ids_of(items@), method),
{
    let mut args = front;
    let ids = item_ids(items);
    let ghost head = args@;
    let mut rest = ids;
    let ghost back = rest@;
    args.append(&mut rest);
    assert(texts(args@) =~= texts(head) + texts(back));
    PreviewStep::Run(PreviewRun { program: owned(program), args, method })
}

fn ready(p: Preview) -> (r: PreviewStep)
    ensures
        step_view(r) == StepModel::Ready(p@),
{
    PreviewStep::Ready(p)
}

fn no_dry_run(b: &str) -> (r: Option<String>)
    ensures
        match r {
            Some(n) => no_dry_run_note(b@) == Some(n@),
            None => no_dry_run_note(b@) is None,
        },
{
    if str_eq(b, "Standalone") {
        Some(owned("no package manager can calculate dependencies for an unmanaged executable"))
    } else if str_eq(b, "Slackware") {
        Some(owned("Slackware pkgtools does not track dependency relationships"))
    } else if str_eq(b, "Eopkg") {
        Some(owned("Eopkg's dry-run output is not stable machine-readable transaction data"))
    } else if str_eq(b, "Swupd") || str_eq(b, "Swupd 3rd-party") {
        Some(owned("Swupd has no read-only bundle-removal transaction"))
    } else if str_eq(b, "URPMI") || str_eq(b, "YUM") {
        let mut note = owned(b);
        push_str(&mut note, " does not expose a reliable machine-readable removal preview");
        Some(note)
    } else if str_eq(b, "Snap") {
        Some(owned("snapd does not expose a read-only removal transaction"))
    } else {
        None
    }
}

fn is_exact_backend(b: &str) -> (r: bool)
    ensures
        r == removes_exactly(b@),
{
    str_eq(b, "Flatpak") || str_eq(b, "Gear Lever") || str_eq(b, "AppImage") || str_eq(b, "Cargo")
        || str_eq(b, "Pipx") || str_eq(b, "UV Tool") || str_eq(b, "NPM") || str_eq(b, "Nix")
        || str_eq(b, "Nix Legacy") || str_eq(b, "Guix")
}

fn portage_step(items: &[Match]) -> (r: PreviewStep)
    ensures
        step_view(r) == StepModel::Run(
            "emerge"@,
            seq!["--pretend"@, "--verbose"@, "--depclean"@] + items@.map_values(
                |m: Match| portage_atom(m),
            ),
            PreviewMethod::Portage,
        ),
{
    let mut args = words(&["--pretend", "--verbose", "--depclean"]);
    let ghost front = texts(args@);
    assert(front =~= seq!["--pretend"@, "--verbose"@, "--depclean"@]);
    for i in 0..items.len()
        invariant
            texts(args@) == front + items@.take(i as int).map_values(|m: Match| portage_atom(m)),
    {
        let ghost before = args@;
        args.push(portage_atom_of(&items[i]));
        assert(texts(args@) =~= texts(before).push(portage_atom(items@[i as int])));
        assert(items@.take(i + 1).map_values(|m: Match| portage_atom(m)) =~= items@.take(
            i as int,
        ).map_values(|m: Match| portage_atom(m)).push(portage_atom(items@[i as int])));
    }
    assert(items@.take(items@.len() as int) =~= items@);
    PreviewStep::Run(PreviewRun { program: owned("emerge"), args, method: PreviewMethod::Portage })
}

fn conda_step(item: &Match) -> (r: PreviewStep)
    ensures
        step_view(r) == StepModel::Run(
            if item.backend@ == "Conda"@ {
                "conda"@
            } else {
                "micromamba"@
            },
            seq!["remove"@, "--dry-run"@, "--json"@, "--prefix"@, item.profile@, item.id@],
            PreviewMethod::Conda,
        ),
{
    let program = if str_eq(item.backend.as_str(), "Conda") {
        "conda"
    } else {
        "micromamba"
    };
    let mut args = words(&["remove", "--dry-run", "--json", "--prefix"]);
    args.push(item.profile.clone());
    args.push(item.id.clone());
    assert(texts(args@) =~= seq![
        "remove"@,
        "--dry-run"@,
        "--json"@,
        "--prefix"@,
        item.profile@,
        item.id@,
    ]);
    PreviewStep::Run(PreviewRun { program: owned(program), args, method: PreviewMethod::Conda })
}

/// What to do to preview a group: a dry run to perform, or the preview
/// itself when no dry run is needed or possible.
pub fn preview_step(items: &[Match], manager_cleanup: bool, dnf_binary: Option<&str>) -> (r:
    PreviewStep)
    requires
        items@.len() > 0,
    ensures
        step_view(r) == step_spec(
            items@,
            manager_cleanup,
            match dnf_binary {
                Some(d) => Some(d@),
                None => None,
            },
        ),
{
    let b = items[0].backend.as_str();
    if str_eq(b, "DNF") {
        match dnf_binary {
            None => ready(unknown(owned("DNF is unavailable"))),
            Some(d) => run_with(d, v2("--assumeno", "remove"), items, PreviewMethod::Dnf),
        }
    } else if str_eq(b, "APT") {
        if manager_cleanup {
            run_with("apt-get", v2("--simulate", "purge"), items, PreviewMethod::Apt)
        } else {
            run_with("apt-get", v2("--simulate", "remove"), items, PreviewMethod::Apt)
        }
    } else if str_eq(b, "APT-RPM") {
        run_with("apt-get", v2("--simulate", "remove"), items, PreviewMethod::AptRpm)
    } else if str_eq(b, "Pacman") {
        run_with("pacman", v3("-R", "--print-format", "%n"), items, PreviewMethod::Pacman)
    } else if str_eq(b, "RPM") {
        run_with("rpm", v2("-e", "--test"), items, PreviewMethod::Rpm)
    } else if str_eq(b, "RPM-OSTree") {
        run_with("rpm-ostree", v2("uninstall", "--dry-run"), items, PreviewMethod::RpmOstree)
    } else if str_eq(b, "Zypper") {
        run_with("zypper", v4("--xmlout", "--non-interactive", "remove", "--dry-run"), items,
            PreviewMethod::Zypper)
    } else if str_eq(b, "APK") {
        run_with("apk", v2("del", "--simulate"), items, PreviewMethod::Apk)
    } else if str_eq(b, "OPKG") {
        run_with("opkg", v2("--noaction", "remove"), items, PreviewMethod::Opkg)
    } else if str_eq(b, "XBPS") {
        run_with("xbps-remove", v2("--dry-run", "--recursive"), items, PreviewMethod::Xbps)
    } else if str_eq(b, "Portage") {
        portage_step(items)
    } else if str_eq(b, "Conda") || str_eq(b, "Micromamba") {
        conda_step(&items[0])
    } else if str_eq(b, "Container Export") {
        ready(
            blocked(
                owned(
                    "this is a host export of an application inside a container; remove it inside that container",
                ),
            ),
        )
    } else {
        match no_dry_run(b) {
            Some(note) => ready(unknown(note)),
            None => {
                if str_eq(b, "Homebrew Cask") {
                    run_with("brew", v3("uninstall", "--dry-run", "--cask"), items,
                        PreviewMethod::Homebrew)
                } else if str_eq(b, "Homebrew") {
                    run_with("brew", v2("uninstall", "--dry-run"), items, PreviewMethod::Homebrew)
                } else if is_exact_backend(b) {
                    ready(Preview::exact(item_ids(items)))
                } else {
                    let mut note = owned(b);
                    push_str(&mut note, " has no supported removal preview");
                    ready(unknown(note))
                }
            },
        }
    }
}

/// How a dry run's result reads as a preview.
pub open spec fn read_spec(
    method: PreviewMethod,
    program: Seq<char>,
    items: Seq<Match>,
    result: CommandResult,
) -> PreviewModel {
    let ids = ids_of(items);
    let text = result_text(result);
    match method {
        PreviewMethod::Dnf => dnf_model(ids, result, program),
        PreviewMethod::Apt => apt_model(result),
        PreviewMethod::AptRpm => accepted_model(ids, result, "APT-RPM"@),
        PreviewMethod::Pacman => pacman_model(result),
        PreviewMethod::Rpm => rpm_model(ids, result),
        PreviewMethod::RpmOstree => accepted_model(ids, result, "rpm-ostree"@),
        PreviewMethod::Zypper => zypper_model(
            result,
            regex_groups(zypper_name_pattern(), result.stdout@),
            regex_groups(zypper_alternate_pattern(), result.stdout@),
            match regex_group(zypper_section_pattern(), result.stdout@) {
                Some(removed) => Some(regex_groups(zypper_solvable_pattern(), removed)),
                None => None,
            },
        ),
        PreviewMethod::Apk => apk_model(ids, result, regex_groups(apk_pattern(), text)),
        PreviewMethod::Opkg => opkg_model(result, regex_groups(opkg_pattern(), text)),
        PreviewMethod::Xbps => xbps_model(
            ids,
            result,
            xbps_candidates(lines_spec(text)).map_values(
                |c: Seq<char>| regex_group(xbps_pattern(), c),
            ),
        ),
        PreviewMethod::Portage => portage_model(
            ids,
            result,
            regex_groups(portage_pattern(), result.stdout@),
        ),
        PreviewMethod::Conda => conda_model(
            items[0].id@,
            result,
            program,
            json_parses(result.stdout@),
        ),
        PreviewMethod::Homebrew => homebrew_model(ids, result),
    }
}

/// Reads the result of a dry run that `preview_step` asked for.
pub fn read_preview(run: &PreviewRun, items: &[Match], result: &CommandResult) -> (r: Preview)
    requires
        items@.len() > 0,
    ensures
        r@ == read_spec(run.method, run.program@, items@, *result),
{
    let ids = item_ids(items);
    match run.method {
        PreviewMethod::Dnf => dnf_preview(&ids, result, run.program.as_str()),
        PreviewMethod::Apt => apt_preview(result),
        PreviewMethod::AptRpm => apt_rpm_preview(&ids, result),
        PreviewMethod::Pacman => pacman_preview(result),
        PreviewMethod::Rpm => rpm_preview(&ids, result),
        PreviewMethod::RpmOstree => rpm_ostree_preview(&ids, result),
        PreviewMethod::Zypper => zypper_preview(result),
        PreviewMethod::Apk => apk_preview(&ids, result),
        PreviewMethod::Opkg => opkg_preview(result),
        PreviewMethod::Xbps => xbps_preview(&ids, result),
        PreviewMethod::Portage => portage_preview(&ids, result),
        PreviewMethod::Conda => conda_preview(&items[0].id, result, run.program.as_str()),
        PreviewMethod::Homebrew => homebrew_preview(&ids, result),
    }
}


// ---------------------------------------------------------------------------
// Risk of a group, and of the whole selection
// ---------------------------------------------------------------------------

/// The names that must never be removed casually, before the running
/// system's own additions (its init, kernel release, held packages and
/// DNF's protected lists).
pub open spec fn base_protected() -> Seq<Seq<char>> {
    seq![
        "apt"@,
        "base"@,
        "base-files"@,
        "bash"@,
        "busybox"@,
        "coreutils"@,
        "dbus"@,
        "dnf"@,
        "dnf5"@,
        "filesystem"@,
        "glibc"@,
        "grub"@,
        "kernel"@,
        "linux"@,
        "musl"@,
        "openrc"@,
        "pacman"@,
        "rpm"@,
        "rpm-ostree"@,
        "shadow"@,
        "snapd"@,
        "sudo"@,
        "systemd"@,
        "transactional-update"@,
        "util-linux"@,
        "zypper"@,
    ]
}

pub fn base_protected_names() -> (r: Vec<String>)
    ensures
        texts(r@) == base_protected(),
{
    words(
        &[
            "apt",
            "base",
            "base-files",
            "bash",
            "busybox",
            "coreutils",
            "dbus",
            "dnf",
            "dnf5",
            "filesystem",
            "glibc",
            "grub",
            "kernel",
            "linux",
            "musl",
            "openrc",
            "pacman",
            "rpm",
            "rpm-ostree",
            "shadow",
            "snapd",
            "sudo",
            "systemd",
            "transactional-update",
            "util-linux",
            "zypper",
        ],
    )
}

/// The package names of the running kernel release.
pub fn kernel_names(release: &str) -> (r: Vec<String>)
    ensures
        trim_spec(release@).len() == 0 ==> texts(r@) == Seq::<Seq<char>>::empty(),
        trim_spec(release@).len() > 0 ==> texts(r@) == seq![
            "kernel-"@ + trim_spec(release@),
            "linux-image-"@ + trim_spec(release@),
        ],
{
    let cs = chars_of(release);
    let t = trim_chars(&cs);
    let mut out: Vec<String> = Vec::new();
    if t.len() > 0 {
        let mut a = owned("kernel-");
        crate::text::push_chars(&mut a, &t);
        let mut b = owned("linux-image-");
        crate::text::push_chars(&mut b, &t);
        out.push(a);
        out.push(b);
        assert(texts(out@) =~= seq![a@, b@]);
    } else {
        assert(texts(out@) =~= Seq::<Seq<char>>::empty());
    }
    out
}

/// Lines that name a protected package exactly: not blank, not comments,
/// without wildcard characters.
pub open spec fn listed_name(line: Seq<char>) -> bool {
    let t = trim_spec(line);
    t.len() > 0 && t[0] != '#' && !t.contains('*') && !t.contains('?') && !t.contains('[')
}

pub open spec fn listed_names(lines: Seq<Seq<char>>) -> Seq<Seq<char>>
    decreases lines.len(),
{
    if lines.len() == 0 {
        Seq::empty()
    } else if listed_name(lines.last()) {
        listed_names(lines.drop_last()).push(trim_spec(lines.last()))
    } else {
        listed_names(lines.drop_last())
    }
}

fn has_char(s: &Vec<char>, c: char) -> (r: bool)
    ensures
        r == s@.contains(c),
{
    for i in 0..s.len()
        invariant
            forall|j: int| 0 <= j < i ==> s@[j] != c,
    {
        if s[i] == c {
            return true;
        }
    }
    false
}

/// The exact package names of a DNF or YUM protected-packages file.
pub fn protected_entries(text: &str) -> (r: Vec<String>)
    ensures
        texts(r@) == listed_names(lines_spec(text@)),
{
    let cs = chars_of(text);
    let lines = lines_of(&cs);
    let ghost ls = deep(lines@);
    let mut out: Vec<String> = Vec::new();
    assert(ls.take(0) =~= Seq::<Seq<char>>::empty());
    assert(texts(out@) =~= Seq::<Seq<char>>::empty());
    for i in 0..lines.len()
        invariant
            ls == deep(lines@),
            texts(out@) == listed_names(ls.take(i as int)),
    {
        proof {
            assert(ls.take(i + 1).drop_last() =~= ls.take(i as int));
            assert(ls.take(i + 1).last() == lines@[i as int]@);
        }
        let t = trim_chars(&lines[i]);
        if t.len() > 0 && t[0] != '#' && !has_char(&t, '*') && !has_char(&t, '?') && !has_char(
            &t,
            '[',
        ) {
            let ghost before = out@;
            out.push(string_of(&t));
            assert(texts(out@) =~= texts(before).push(t@));
        }
    }
    assert(ls.take(lines@.len() as int) =~= ls);
    out
}

/// The package bases of `apt-mark showhold`'s lines.
pub fn held_names(text: &str) -> (r: Vec<String>)
    ensures
        texts(r@) == lines_spec(text@).map_values(|l: Seq<char>| package_base_spec(l)),
{
    let cs = chars_of(text);
    let lines = lines_of(&cs);
    let ghost ls = deep(lines@);
    let mut out: Vec<String> = Vec::new();
    for i in 0..lines.len()
        invariant
            ls == deep(lines@),
            texts(out@) == ls.take(i as int).map_values(|l: Seq<char>| package_base_spec(l)),
    {
        let line = string_of(&lines[i]);
        let ghost before = out@;
        out.push(package_base(line.as_str()));
        assert(texts(out@) =~= texts(before).push(package_base_spec(lines@[i as int]@)));
        assert(ls.take(i + 1).map_values(|l: Seq<char>| package_base_spec(l)) =~= ls.take(
            i as int,
        ).map_values(|l: Seq<char>| package_base_spec(l)).push(package_base_spec(ls[i as int])));
    }
    assert(ls.take(lines@.len() as int) =~= ls);
    out
}

/// The lowercased package base of a name.
pub open spec fn protected_base(name: Seq<char>) -> Seq<char> {
    ascii_lower_seq(package_base_spec(name))
}

/// Whether removing `name` touches the system's core: a protected name,
/// or a kernel package.
pub open spec fn is_protected_spec(name: Seq<char>, protected: Seq<Seq<char>>) -> bool {
    let base = protected_base(name);
    protected.contains(base) || base == "kernel-core"@ || "kernel-modules"@.is_prefix_of(base)
        || "kernel-core-"@.is_prefix_of(base) || "linux-image"@.is_prefix_of(base)
}

pub fn is_protected(name: &str, protected: &Vec<String>) -> (r: bool)
    ensures
        r == is_protected_spec(name@, texts(protected@)),
{
    let base = package_base(name);
    let bc = chars_of(base.as_str());
    let lower = ascii_lower_chars(&bc);
    let lower_text = string_of(&lower);
    contains_text(protected, lower_text.as_str()) || chars_eq(&lower, &chars_of("kernel-core"))
        || starts_with_chars(&lower, &chars_of("kernel-modules")) || starts_with_chars(
        &lower,
        &chars_of("kernel-core-"),
    ) || starts_with_chars(&lower, &chars_of("linux-image"))
}

/// The planned names that are protected.
pub open spec fn protected_of(planned: Seq<Seq<char>>, protected: Seq<Seq<char>>) -> Seq<Seq<char>>
    decreases planned.len(),
{
    if planned.len() == 0 {
        Seq::empty()
    } else if is_protected_spec(planned.last(), protected) {
        protected_of(planned.drop_last(), protected).push(planned.last())
    } else {
        protected_of(planned.drop_last(), protected)
    }
}

/// Whether some list entry has the package base of `name`.
pub open spec fn base_listed(list: Seq<Seq<char>>, name: Seq<char>) -> bool {
    exists|j: int| 0 <= j < list.len() && package_base_spec(#[trigger] list[j]) == package_base_spec(name)
}

/// A planned removal that was neither requested nor reported as an unused
/// dependency.
pub open spec fn has_extra(planned: Seq<Seq<char>>, ids: Seq<Seq<char>>, unused: Seq<Seq<char>>) -> bool {
    exists|i: int|
        0 <= i < planned.len() && !base_listed(ids, #[trigger] planned[i]) && !base_listed(
            unused,
            planned[i],
        )
}

/// The risk of a group: an exact plan is high when it touches protected
/// packages or removes more than was asked, cautious when it also removes
/// unused dependencies, low otherwise; anything protected is high; an
/// unknown, failed or unsupported preview is of unknown risk, and a
/// blocked one is blocked.
pub open spec fn group_impact(
    status: PreviewStatus,
    impact: Impact,
    protected: bool,
    extra: bool,
    unused: bool,
) -> Impact {
    let exact = if status == PreviewStatus::Exact {
        if protected || extra {
            Impact::High
        } else if unused {
            Impact::Caution
        } else {
            Impact::Low
        }
    } else {
        impact
    };
    let guarded = if protected {
        Impact::High
    } else {
        exact
    };
    if status == PreviewStatus::Blocked {
        Impact::Blocked
    } else if status == PreviewStatus::Unknown || status == PreviewStatus::Failed || status
        == PreviewStatus::Unsupported {
        Impact::Unknown
    } else {
        guarded
    }
}

/// A group's preview with its protected packages, its unused dependencies
/// sorted once each, and its risk.
pub open spec fn build_group_spec(
    items: Seq<Match>,
    p: PreviewModel,
    protected: Seq<Seq<char>>,
) -> PreviewModel {
    if items.len() == 0 {
        blocked_model("no application was selected"@)
    } else {
        let prot = protected_of(p.planned, protected);
        let unused = sort_dedup(p.unused);
        PreviewModel {
            status: p.status,
            impact: group_impact(
                p.status,
                p.impact,
                prot.len() > 0,
                has_extra(p.planned, ids_of(items), unused),
                unused.len() > 0,
            ),
            planned: p.planned,
            unused,
            protected: prot,
            blockers: p.blockers,
            notes: p.notes,
            fingerprint: p.fingerprint,
        }
    }
}

fn collect_protected(planned: &Vec<String>, protected: &Vec<String>) -> (r: Vec<String>)
    ensures
        texts(r@) == protected_of(texts(planned@), texts(protected@)),
{
    let ghost ps = texts(planned@);
    let mut out: Vec<String> = Vec::new();
    assert(ps.take(0) =~= Seq::<Seq<char>>::empty());
    assert(texts(out@) =~= Seq::<Seq<char>>::empty());
    for i in 0..planned.len()
        invariant
            ps == texts(planned@),
            texts(out@) == protected_of(ps.take(i as int), texts(protected@)),
    {
        proof {
            assert(ps.take(i + 1).drop_last() =~= ps.take(i as int));
            assert(ps.take(i + 1).last() == planned@[i as int]@);
        }
        if is_protected(planned[i].as_str(), protected) {
            let ghost before = out@;
            out.push(planned[i].clone());
            assert(texts(out@) =~= texts(before).push(planned@[i as int]@));
        }
    }
    assert(ps.take(planned@.len() as int) =~= ps);
    out
}

fn base_in(bases: &Vec<String>, list: &Vec<String>, name: &str) -> (r: bool)
    requires
        texts(bases@) == texts(list@).map_values(|s: Seq<char>| package_base_spec(s)),
    ensures
        r == base_listed(texts(list@), name@),
{
    let b = package_base(name);
    let found = contains_text(bases, b.as_str());
    proof {
        let l = texts(list@);
        if found {
            let j = choose|j: int| 0 <= j < texts(bases@).len() && texts(bases@)[j] == b@;
            assert(package_base_spec(l[j]) == package_base_spec(name@));
        } else {
            assert forall|j: int| 0 <= j < l.len() implies package_base_spec(#[trigger] l[j])
                != package_base_spec(name@) by {
                assert(texts(bases@)[j] == package_base_spec(l[j]));
            }
        }
    }
    found
}

fn any_extra(planned: &Vec<String>, ids: &Vec<String>, unused: &Vec<String>) -> (r: bool)
    ensures
        r == has_extra(texts(planned@), texts(ids@), texts(unused@)),
{
    let id_bases = bases_of(ids);
    let unused_bases = bases_of(unused);
    for i in 0..planned.len()
        invariant
            texts(id_bases@) == texts(ids@).map_values(|s: Seq<char>| package_base_spec(s)),
            texts(unused_bases@) == texts(unused@).map_values(|s: Seq<char>| package_base_spec(s)),
            forall|j: int|
                0 <= j < i ==> base_listed(texts(ids@), #[trigger] texts(planned@)[j])
                    || base_listed(texts(unused@), texts(planned@)[j]),
    {
        assert(texts(planned@)[i as int] == planned@[i as int]@);
        if !base_in(&id_bases, ids, planned[i].as_str()) && !base_in(
            &unused_bases,
            unused,
            planned[i].as_str(),
        ) {
            return true;
        }
    }
    false
}

fn take_texts(v: &mut Vec<String>) -> (r: Vec<String>)
    ensures
        r@ == old(v)@,
        final(v)@.len() == 0,
{
    let mut out: Vec<String> = Vec::new();
    std::mem::swap(&mut out, v);
    out
}

/// A group's preview with its protected packages, unused dependencies and
/// risk worked out.
pub fn build_group(items: &[Match], preview: Preview, protected: &Vec<String>) -> (r: Preview)
    ensures
        r@ == build_group_spec(items@, preview@, texts(protected@)),
{
    if items.len() == 0 {
        return blocked(owned("no application was selected"));
    }
    let mut preview = preview;
    let prot = collect_protected(&preview.planned_removals, protected);
    let unused = sort_unique(&preview.unused_dependencies);
    let ids = item_ids(items);
    let extra = any_extra(&preview.planned_removals, &ids, &unused);
    let status = preview.status;
    let exact_impact = if status == PreviewStatus::Exact {
        if prot.len() > 0 || extra {
            Impact::High
        } else if unused.len() > 0 {
            Impact::Caution
        } else {
            Impact::Low
        }
    } else {
        preview.impact
    };
    let guarded = if prot.len() > 0 {
        Impact::High
    } else {
        exact_impact
    };
    let impact = if status == PreviewStatus::Blocked {
        Impact::Blocked
    } else if status == PreviewStatus::Unknown || status == PreviewStatus::Failed || status
        == PreviewStatus::Unsupported {
        Impact::Unknown
    } else {
        guarded
    };
    preview.protected = prot;
    preview.unused_dependencies = unused;
    preview.impact = impact;
    preview
}

/// Protected packages make a group's risk high unless its preview is
/// unknown, failed, unsupported or blocked; a blocked preview is always of
/// blocked risk; an exact plan of exactly the requested packages, with
/// nothing protected and no unused dependencies, is low.
pub proof fn group_risk_rules(items: Seq<Match>, p: PreviewModel, protected: Seq<Seq<char>>)
    requires
        items.len() > 0,
    ensures
        ({
            let g = build_group_spec(items, p, protected);
            &&& g.protected.len() > 0 ==> (g.impact == Impact::High || g.impact == Impact::Unknown
                || g.impact == Impact::Blocked)
            &&& p.status == PreviewStatus::Blocked ==> g.impact == Impact::Blocked
            &&& (p.status == PreviewStatus::Exact && g.protected.len() == 0 && g.unused.len() == 0
                && !has_extra(p.planned, ids_of(items), g.unused)) ==> g.impact == Impact::Low
        }),
{
}

/// Severity order of statuses: blocked, failed, unknown or unsupported,
/// exact, no-op.
pub open spec fn status_rank_spec(s: PreviewStatus) -> u8 {
    match s {
        PreviewStatus::Blocked => 5,
        PreviewStatus::Failed => 4,
        PreviewStatus::Unknown => 3,
        PreviewStatus::Unsupported => 3,
        PreviewStatus::Exact => 2,
        PreviewStatus::NoOp => 1,
    }
}

pub fn status_rank(s: PreviewStatus) -> (r: u8)
    ensures
        r == status_rank_spec(s),
{
    match s {
        PreviewStatus::Blocked => 5,
        PreviewStatus::Failed => 4,
        PreviewStatus::Unknown => 3,
        PreviewStatus::Unsupported => 3,
        PreviewStatus::Exact => 2,
        PreviewStatus::NoOp => 1,
    }
}

/// Severity order of risks: blocked, unknown, high, caution, low.
pub open spec fn impact_rank_spec(i: Impact) -> u8 {
    match i {
        Impact::Blocked => 5,
        Impact::Unknown => 4,
        Impact::High => 3,
        Impact::Caution => 2,
        Impact::Low => 1,
    }
}

pub fn impact_rank(i: Impact) -> (r: u8)
    ensures
        r == impact_rank_spec(i),
{
    match i {
        Impact::Blocked => 5,
        Impact::Unknown => 4,
        Impact::High => 3,
        Impact::Caution => 2,
        Impact::Low => 1,
    }
}

/// A preview merged into another: the more severe status and risk, and
/// all lists concatenated.
pub open spec fn merge_two(base: PreviewModel, next: PreviewModel) -> PreviewModel {
    PreviewModel {
        status: if status_rank_spec(next.status) > status_rank_spec(base.status) {
            next.status
        } else {
            base.status
        },
        impact: if impact_rank_spec(next.impact) > impact_rank_spec(base.impact) {
            next.impact
        } else {
            base.impact
        },
        planned: base.planned + next.planned,
        unused: base.unused + next.unused,
        protected: base.protected + next.protected,
        blockers: base.blockers + next.blockers,
        notes: base.notes + next.notes,
        fingerprint: base.fingerprint,
    }
}

pub open spec fn merge_from(base: PreviewModel, rest: Seq<PreviewModel>) -> PreviewModel
    decreases rest.len(),
{
    if rest.len() == 0 {
        base
    } else {
        merge_two(merge_from(base, rest.drop_last()), rest.last())
    }
}

/// Every list sorted with duplicates removed.
pub open spec fn tidy(p: PreviewModel) -> PreviewModel {
    PreviewModel {
        status: p.status,
        impact: p.impact,
        planned: sort_dedup(p.planned),
        unused: sort_dedup(p.unused),
        protected: sort_dedup(p.protected),
        blockers: sort_dedup(p.blockers),
        notes: sort_dedup(p.notes),
        fingerprint: p.fingerprint,
    }
}

/// The preview of a whole selection from the previews of its groups: the
/// last group's preview with the others merged into it in order, every
/// list sorted once, and the fingerprint of the result.
pub open spec fn build_spec(
    items: Seq<Match>,
    cleanup: Seq<Seq<char>>,
    groups: Seq<PreviewModel>,
) -> PreviewModel {
    if items.len() == 0 {
        blocked_model("no application was selected"@)
    } else {
        let merged = if groups.len() == 0 {
            tidy(blocked_model("no application was selected"@))
        } else {
            tidy(merge_from(groups.last(), groups.drop_last()))
        };
        PreviewModel { fingerprint: fingerprint_spec(merged, items, cleanup), ..merged }
    }
}

fn append_texts(to: &mut Vec<String>, from: Vec<String>)
    ensures
        texts(final(to)@) == texts(old(to)@) + texts(from@),
{
    let ghost a = to@;
    let mut from = from;
    let ghost b = from@;
    to.append(&mut from);
    assert(texts(to@) =~= texts(a) + texts(b));
}

fn merge_into(base: &mut Preview, next: Preview)
    ensures
        final(base)@ == merge_two(old(base)@, next@),
{
    if status_rank(next.status) > status_rank(base.status) {
        base.status = next.status;
    }
    if impact_rank(next.impact) > impact_rank(base.impact) {
        base.impact = next.impact;
    }
    let Preview { planned_removals, unused_dependencies, protected, blockers, notes, .. } = next;
    append_texts(&mut base.planned_removals, planned_removals);
    append_texts(&mut base.unused_dependencies, unused_dependencies);
    append_texts(&mut base.protected, protected);
    append_texts(&mut base.blockers, blockers);
    append_texts(&mut base.notes, notes);
}

fn tidy_preview(p: Preview) -> (r: Preview)
    ensures
        r@ == tidy(p@),
{
    Preview {
        status: p.status,
        impact: p.impact,
        planned_removals: sort_unique(&p.planned_removals),
        unused_dependencies: sort_unique(&p.unused_dependencies),
        protected: sort_unique(&p.protected),
        blockers: sort_unique(&p.blockers),
        notes: sort_unique(&p.notes),
        fingerprint: p.fingerprint,
    }
}

pub open spec fn models(v: Seq<Preview>) -> Seq<PreviewModel> {
    v.map_values(|p: Preview| p@)
}

/// The preview of a whole selection, from the previews of its groups in
/// the order of `preview_groups`.
pub fn build(items: &[Match], cleanup_backends: &[String], groups: Vec<Preview>) -> (r: Preview)
    ensures
        r@ == build_spec(items@, texts(cleanup_backends@), models(groups@)),
{
    if items.len() == 0 {
        return blocked(owned("no application was selected"));
    }
    let ghost gs = models(groups@);
    let mut groups = groups;
    let merged = match groups.pop() {
        None => {
            assert(gs.len() == 0);
            tidy_preview(blocked(owned("no application was selected")))
        },
        Some(last) => {
            assert(gs.last() == last@);
            assert(gs.drop_last() =~= models(groups@));
            let mut acc = last;
            let ghost rest = models(groups@);
            assert(rest.take(0) =~= Seq::<PreviewModel>::empty());
            assert(rest.skip(0) =~= rest);
            let mut remaining = groups;
            let ghost mut done: int = 0;
            while remaining.len() > 0
                invariant
                    0 <= done <= rest.len(),
                    models(remaining@) == rest.skip(done),
                    acc@ == merge_from(gs.last(), rest.take(done)),
                decreases remaining@.len(),
            {
                let ghost before = remaining@;
                let next = remaining.remove(0);
                proof {
                    assert(models(before)[0] == next@);
                    assert(models(before).len() == rest.len() - done);
                    assert(rest.skip(done)[0] == rest[done]);
                    assert(rest[done] == next@);
                    assert(rest.take(done + 1).drop_last() =~= rest.take(done));
                    assert(rest.take(done + 1).last() == next@);
                    assert(remaining@ =~= before.remove(0));
                    assert forall|k: int| 0 <= k < models(remaining@).len() implies models(
                        remaining@,
                    )[k] == rest.skip(done + 1)[k] by {
                        assert(models(remaining@)[k] == remaining@[k]@);
                        assert(remaining@[k] == before[k + 1]);
                        assert(models(before)[k + 1] == rest.skip(done)[k + 1]);
                    }
                    assert(models(remaining@) =~= rest.skip(done + 1));
                }
                merge_into(&mut acc, next);
                proof {
                    done = done + 1;
                }
            }
            assert(rest.take(done) =~= rest);
            tidy_preview(acc)
        },
    };
    let fp = fingerprint(&merged, items, cleanup_backends);
    let mut merged = merged;
    merged.fingerprint = fp;
    merged
}


/// The program that removes a backend's items, when it is the same for
/// every system.
pub open spec fn fixed_manager(b: Seq<char>) -> Option<Seq<char>> {
    if b == "APT"@ {
        Some("apt-get"@)
    } else if b == "APT-RPM"@ {
        Some("apt-get"@)
    } else if b == "YUM"@ {
        Some("yum"@)
    } else if b == "RPM"@ {
        Some("rpm"@)
    } else if b == "RPM-OSTree"@ {
        Some("rpm-ostree"@)
    } else if b == "Zypper"@ {
        Some("zypper"@)
    } else if b == "URPMI"@ {
        Some("urpme"@)
    } else if b == "Pacman"@ {
        Some("pacman"@)
    } else if b == "APK"@ {
        Some("apk"@)
    } else if b == "OPKG"@ {
        Some("opkg"@)
    } else if b == "XBPS"@ {
        Some("xbps-remove"@)
    } else if b == "Portage"@ {
        Some("emerge"@)
    } else if b == "Slackware"@ {
        Some("removepkg"@)
    } else if b == "Eopkg"@ {
        Some("eopkg"@)
    } else if b == "Swupd"@ {
        Some("swupd"@)
    } else if b == "Swupd 3rd-party"@ {
        Some("swupd"@)
    } else if b == "Flatpak"@ {
        Some("flatpak"@)
    } else if b == "Snap"@ {
        Some("snap"@)
    } else if b == "Homebrew"@ {
        Some("brew"@)
    } else if b == "Homebrew Cask"@ {
        Some("brew"@)
    } else if b == "Cargo"@ {
        Some("cargo"@)
    } else if b == "Pipx"@ {
        Some("pipx"@)
    } else if b == "UV Tool"@ {
        Some("uv"@)
    } else if b == "NPM"@ {
        Some("npm"@)
    } else if b == "Nix"@ {
        Some("nix"@)
    } else if b == "Nix Legacy"@ {
        Some("nix-env"@)
    } else if b == "Guix"@ {
        Some("guix"@)
    } else if b == "Conda"@ {
        Some("conda"@)
    } else if b == "Micromamba"@ {
        Some("micromamba"@)
    } else if b == "AppImage"@ {
        Some("rm"@)
    } else if b == "Standalone"@ {
        Some("rm"@)
    } else {
        None
    }
}

fn fixed_manager_of(b: &str) -> (r: Option<&'static str>)
    ensures
        match r {
            Some(m) => fixed_manager(b@) == Some(m@),
            None => fixed_manager(b@) is None,
        },
{
    if str_eq(b, "APT") {
        Some("apt-get")
    } else if str_eq(b, "APT-RPM") {
        Some("apt-get")
    } else if str_eq(b, "YUM") {
        Some("yum")
    } else if str_eq(b, "RPM") {
        Some("rpm")
    } else if str_eq(b, "RPM-OSTree") {
        Some("rpm-ostree")
    } else if str_eq(b, "Zypper") {
        Some("zypper")
    } else if str_eq(b, "URPMI") {
        Some("urpme")
    } else if str_eq(b, "Pacman") {
        Some("pacman")
    } else if str_eq(b, "APK") {
        Some("apk")
    } else if str_eq(b, "OPKG") {
        Some("opkg")
    } else if str_eq(b, "XBPS") {
        Some("xbps-remove")
    } else if str_eq(b, "Portage") {
        Some("emerge")
    } else if str_eq(b, "Slackware") {
        Some("removepkg")
    } else if str_eq(b, "Eopkg") {
        Some("eopkg")
    } else if str_eq(b, "Swupd") {
        Some("swupd")
    } else if str_eq(b, "Swupd 3rd-party") {
        Some("swupd")
    } else if str_eq(b, "Flatpak") {
        Some("flatpak")
    } else if str_eq(b, "Snap") {
        Some("snap")
    } else if str_eq(b, "Homebrew") {
        Some("brew")
    } else if str_eq(b, "Homebrew Cask") {
        Some("brew")
    } else if str_eq(b, "Cargo") {
        Some("cargo")
    } else if str_eq(b, "Pipx") {
        Some("pipx")
    } else if str_eq(b, "UV Tool") {
        Some("uv")
    } else if str_eq(b, "NPM") {
        Some("npm")
    } else if str_eq(b, "Nix") {
        Some("nix")
    } else if str_eq(b, "Nix Legacy") {
        Some("nix-env")
    } else if str_eq(b, "Guix") {
        Some("guix")
    } else if str_eq(b, "Conda") {
        Some("conda")
    } else if str_eq(b, "Micromamba") {
        Some("micromamba")
    } else if str_eq(b, "AppImage") {
        Some("rm")
    } else if str_eq(b, "Standalone") {
        Some("rm")
    } else {
        None
    }
}

/// The program that must still be installed to remove an item: none for
/// Gear Lever, which finds its own launcher; container exports and unknown
/// backends cannot be removed.
pub open spec fn manager_program_spec(b: Seq<char>, dnf: Option<Seq<char>>) -> Result<
    Option<Seq<char>>,
    Seq<char>,
> {
    if b == "DNF"@ {
        Ok(
            Some(
                match dnf {
                    Some(d) => d,
                    None => "dnf"@,
                },
            ),
        )
    } else if fixed_manager(b) is Some {
        Ok(fixed_manager(b))
    } else if b == "Gear Lever"@ {
        Ok(None)
    } else if b == "Container Export"@ {
        Err("container exports cannot be removed from the host"@)
    } else {
        Err("unsupported backend: "@ + b)
    }
}

pub fn manager_program(backend: &str, dnf_binary: Option<&str>) -> (r: Result<Option<String>, String>)
    ensures
        match r {
            Ok(Some(m)) => manager_program_spec(
                backend@,
                match dnf_binary {
                    Some(d) => Some(d@),
                    None => None,
                },
            ) == Ok::<Option<Seq<char>>, Seq<char>>(Some(m@)),
            Ok(None) => manager_program_spec(
                backend@,
                match dnf_binary {
                    Some(d) => Some(d@),
                    None => None,
                },
            ) == Ok::<Option<Seq<char>>, Seq<char>>(None),
            Err(e) => manager_program_spec(
                backend@,
                match dnf_binary {
                    Some(d) => Some(d@),
                    None => None,
                },
            ) == Err::<Option<Seq<char>>, Seq<char>>(e@),
        },
{
    if str_eq(backend, "DNF") {
        return match dnf_binary {
            Some(d) => Ok(Some(owned(d))),
            None => Ok(Some(owned("dnf"))),
        };
    }
    match fixed_manager_of(backend) {
        Some(m) => Ok(Some(owned(m))),
        None => {
            if str_eq(backend, "Gear Lever") {
                Ok(None)
            } else if str_eq(backend, "Container Export") {
                Err(owned("container exports cannot be removed from the host"))
            } else {
                let mut message = owned("unsupported backend: ");
                push_str(&mut message, backend);
                Err(message)
            }
        },
    }
}

/// Every selected item can still be removed: its manager is among the
/// programs found installed (`present`); otherwise the first item's reason.
pub open spec fn managers_present_spec(
    items: Seq<Match>,
    dnf: Option<Seq<char>>,
    present: Seq<Seq<char>>,
) -> Result<(), Seq<char>>
    decreases items.len(),
{
    if items.len() == 0 {
        Ok(())
    } else {
        match manager_program_spec(items[0].backend@, dnf) {
            Err(e) => Err(e),
            Ok(Some(m)) => if !present.contains(m) {
                Err(m + " is no longer available"@)
            } else {
                managers_present_spec(items.drop_first(), dnf, present)
            },
            Ok(None) => managers_present_spec(items.drop_first(), dnf, present),
        }
    }
}

pub fn ensure_manager_present(items: &[Match], dnf_binary: Option<&str>, present: &Vec<String>) -> (r:
    Result<(), String>)
    ensures
        match r {
            Ok(_) => managers_present_spec(
                items@,
                match dnf_binary {
                    Some(d) => Some(d@),
                    None => None,
                },
                texts(present@),
            ) == Ok::<(), Seq<char>>(()),
            Err(e) => managers_present_spec(
                items@,
                match dnf_binary {
                    Some(d) => Some(d@),
                    None => None,
                },
                texts(present@),
            ) == Err::<(), Seq<char>>(e@),
        },
{
    let ghost dnf = match dnf_binary {
        Some(d) => Some(d@),
        None => None,
    };
    let mut i: usize = 0;
    assert(items@.skip(0) =~= items@);
    while i < items.len()
        invariant
            i <= items@.len(),
            dnf == match dnf_binary {
                Some(d) => Some(d@),
                None => None::<Seq<char>>,
            },
            managers_present_spec(items@, dnf, texts(present@)) == managers_present_spec(
                items@.skip(i as int),
                dnf,
                texts(present@),
            ),
        decreases items@.len() - i,
    {
        let ghost rest = items@.skip(i as int);
        assert(rest[0] == items@[i as int]);
        assert(rest.drop_first() =~= items@.skip(i + 1));
        match manager_program(items[i].backend.as_str(), dnf_binary) {
            Err(e) => {
                return Err(e);
            },
            Ok(Some(m)) => {
                if !contains_text(present, m.as_str()) {
                    let mut message = m;
                    push_str(&mut message, " is no longer available");
                    return Err(message);
                }
            },
            Ok(None) => {},
        }
        i = i + 1;
    }
    assert(items@.skip(i as int) =~= Seq::<Match>::empty());
    Ok(())
}


/// Items previewed together: one backend, scope, installation and profile.
pub open spec fn preview_key(m: Match) -> Seq<char> {
    m.backend@ + seq![nul()] + m.scope@ + seq![nul()] + m.installation@ + seq![nul()]
        + m.profile@
}

/// The items with a key, in selection order.
pub open spec fn with_key(items: Seq<Match>, k: Seq<char>) -> Seq<Match>
    decreases items.len(),
{
    if items.len() == 0 {
        items
    } else if preview_key(items.last()) == k {
        with_key(items.drop_last(), k).push(items.last())
    } else {
        with_key(items.drop_last(), k)
    }
}

proof fn lemma_with_key_nonempty(items: Seq<Match>, k: Seq<char>, i: int)
    requires
        0 <= i < items.len(),
        preview_key(items[i]) == k,
    ensures
        with_key(items, k).len() > 0,
    decreases items.len(),
{
    if i < items.len() - 1 && preview_key(items.last()) != k {
        lemma_with_key_nonempty(items.drop_last(), k, i);
    }
}

/// A preview group.
pub struct PreviewGroup {
    pub items: Vec<Match>,
    pub manager_cleanup: bool,
}

pub open spec fn group_model(items: Seq<Match>, k: Seq<char>, cleanup: Seq<String>) -> (
    Seq<Match>,
    bool,
) {
    let g = with_key(items, k);
    (g, cleanup_requested(cleanup, g[0].backend@))
}

/// The groups of a selection in ascending key order, each with whether its
/// manager's own cleanup was requested.
pub open spec fn preview_groups_spec(items: Seq<Match>, cleanup: Seq<String>) -> Seq<
    (Seq<Match>, bool),
> {
    sort_dedup(items.map_values(|m: Match| preview_key(m))).map_values(
        |k: Seq<char>| group_model(items, k, cleanup),
    )
}

pub open spec fn group_views(v: Seq<PreviewGroup>) -> Seq<(Seq<Match>, bool)> {
    v.map_values(|g: PreviewGroup| (g.items@, g.manager_cleanup))
}

fn preview_key_of(m: &Match) -> (r: String)
    ensures
        r@ == preview_key(*m),
{
    let mut k = m.backend.clone();
    crate::text::push_char(&mut k, '\0');
    push_str(&mut k, m.scope.as_str());
    crate::text::push_char(&mut k, '\0');
    push_str(&mut k, m.installation.as_str());
    crate::text::push_char(&mut k, '\0');
    push_str(&mut k, m.profile.as_str());
    assert(k@ =~= preview_key(*m));
    k
}

/// Splits a selection into the groups that are previewed together.
pub fn preview_groups(items: &[Match], cleanup_backends: &[String]) -> (r: Vec<PreviewGroup>)
    ensures
        group_views(r@) == preview_groups_spec(items@, cleanup_backends@),
{
    let ghost all = items@.map_values(|m: Match| preview_key(m));
    let mut keys: Vec<String> = Vec::new();
    for i in 0..items.len()
        invariant
            texts(keys@) == items@.take(i as int).map_values(|m: Match| preview_key(m)),
    {
        let ghost before = keys@;
        keys.push(preview_key_of(&items[i]));
        assert(texts(keys@) =~= texts(before).push(preview_key(items@[i as int])));
        assert(items@.take(i + 1).map_values(|m: Match| preview_key(m)) =~= items@.take(
            i as int,
        ).map_values(|m: Match| preview_key(m)).push(preview_key(items@[i as int])));
    }
    assert(items@.take(items@.len() as int) =~= items@);
    let ks = sort_unique(&keys);
    let ghost kseq = texts(ks@);
    let mut out: Vec<PreviewGroup> = Vec::new();
    for t in 0..ks.len()
        invariant
            kseq == texts(ks@),
            kseq == sort_dedup(all),
            sorted_set_of(all, kseq),
            all == items@.map_values(|m: Match| preview_key(m)),
            group_views(out@) == kseq.take(t as int).map_values(
                |k: Seq<char>| group_model(items@, k, cleanup_backends@),
            ),
    {
        let k = &ks[t];
        assert(kseq[t as int] == k@);
        assert(kseq.contains(k@));
        assert(all.contains(k@));
        let ghost i0 = choose|i: int| 0 <= i < all.len() && all[i] == k@;
        proof {
            assert(preview_key(items@[i0]) == k@);
            lemma_with_key_nonempty(items@, k@, i0);
        }
        let mut group: Vec<Match> = Vec::new();
        for i in 0..items.len()
            invariant
                group@ == with_key(items@.take(i as int), k@),
        {
            proof {
                assert(items@.take(i + 1).drop_last() =~= items@.take(i as int));
                assert(items@.take(i + 1).last() == items@[i as int]);
            }
            let key = preview_key_of(&items[i]);
            if str_eq(key.as_str(), k.as_str()) {
                group.push(items[i].duplicate());
            }
        }
        assert(items@.take(items@.len() as int) =~= items@);
        let clean = cleanup_for(cleanup_backends, group[0].backend.as_str());
        let ghost before = out@;
        out.push(PreviewGroup { items: group, manager_cleanup: clean });
        assert(group_views(out@) =~= group_views(before).push(
            group_model(items@, k@, cleanup_backends@),
        ));
        assert(kseq.take(t + 1).map_values(|k: Seq<char>| group_model(items@, k, cleanup_backends@))
            =~= kseq.take(t as int).map_values(
            |k: Seq<char>| group_model(items@, k, cleanup_backends@),
        ).push(group_model(items@, k@, cleanup_backends@)));
    }
    assert(kseq.take(ks@.len() as int) =~= kseq);
    out
}


proof fn lemma_merge_from_severity(base: PreviewModel, rest: Seq<PreviewModel>)
    ensures
        status_rank_spec(merge_from(base, rest).status) >= status_rank_spec(base.status),
        impact_rank_spec(merge_from(base, rest).impact) >= impact_rank_spec(base.impact),
        forall|i: int|
            0 <= i < rest.len() ==> status_rank_spec(merge_from(base, rest).status)
                >= status_rank_spec(#[trigger] rest[i].status) && impact_rank_spec(
                merge_from(base, rest).impact,
            ) >= impact_rank_spec(rest[i].impact),
        merge_from(base, rest).status == base.status || exists|j: int|
            0 <= j < rest.len() && merge_from(base, rest).status == #[trigger] rest[j].status,
        merge_from(base, rest).impact == base.impact || exists|j: int|
            0 <= j < rest.len() && merge_from(base, rest).impact == #[trigger] rest[j].impact,
    decreases rest.len(),
{
    if rest.len() > 0 {
        let d = rest.drop_last();
        lemma_merge_from_severity(base, d);
        let m = merge_from(base, d);
        assert forall|i: int| 0 <= i < rest.len() implies status_rank_spec(
            merge_from(base, rest).status,
        ) >= status_rank_spec(#[trigger] rest[i].status) && impact_rank_spec(
            merge_from(base, rest).impact,
        ) >= impact_rank_spec(rest[i].impact) by {
            if i < rest.len() - 1 {
                assert(rest[i] == d[i]);
            }
        }
        if merge_from(base, rest).status != base.status {
            if merge_from(base, rest).status == rest.last().status {
                assert(rest[rest.len() - 1] == rest.last());
            } else {
                assert(merge_from(base, rest).status == m.status);
                let j = choose|j: int| 0 <= j < d.len() && m.status == #[trigger] d[j].status;
                assert(rest[j] == d[j]);
            }
        }
        if merge_from(base, rest).impact != base.impact {
            if merge_from(base, rest).impact == rest.last().impact {
                assert(rest[rest.len() - 1] == rest.last());
            } else {
                assert(merge_from(base, rest).impact == m.impact);
                let j = choose|j: int| 0 <= j < d.len() && m.impact == #[trigger] d[j].impact;
                assert(rest[j] == d[j]);
            }
        }
    }
}

/// A selection is as severe as its worst group: its status and risk are
/// those of some group and at least as severe as every group's, so one
/// blocked group blocks the whole removal.
pub proof fn selection_is_as_severe_as_its_worst_group(
    items: Seq<Match>,
    cleanup: Seq<Seq<char>>,
    groups: Seq<PreviewModel>,
)
    requires
        items.len() > 0,
        groups.len() > 0,
    ensures
        forall|i: int|
            0 <= i < groups.len() ==> status_rank_spec(build_spec(items, cleanup, groups).status)
                >= status_rank_spec(#[trigger] groups[i].status) && impact_rank_spec(
                build_spec(items, cleanup, groups).impact,
            ) >= impact_rank_spec(groups[i].impact),
        exists|j: int|
            0 <= j < groups.len() && build_spec(items, cleanup, groups).status
                == #[trigger] groups[j].status,
        exists|j: int|
            0 <= j < groups.len() && build_spec(items, cleanup, groups).impact
                == #[trigger] groups[j].impact,
        (exists|i: int| 0 <= i < groups.len() && #[trigger] groups[i].status == PreviewStatus::Blocked)
            ==> build_spec(items, cleanup, groups).status == PreviewStatus::Blocked,
{
    let base = groups.last();
    let rest = groups.drop_last();
    lemma_merge_from_severity(base, rest);
    let m = merge_from(base, rest);
    let r = build_spec(items, cleanup, groups);
    assert(r.status == m.status);
    assert(r.impact == m.impact);
    assert forall|i: int| 0 <= i < groups.len() implies status_rank_spec(r.status)
        >= status_rank_spec(#[trigger] groups[i].status) && impact_rank_spec(r.impact)
        >= impact_rank_spec(groups[i].impact) by {
        if i < groups.len() - 1 {
            assert(groups[i] == rest[i]);
        }
    }
    if m.status == base.status {
        assert(groups[groups.len() - 1] == base);
    } else {
        let j = choose|j: int| 0 <= j < rest.len() && m.status == #[trigger] rest[j].status;
        assert(groups[j] == rest[j]);
    }
    if m.impact == base.impact {
        assert(groups[groups.len() - 1] == base);
    } else {
        let j = choose|j: int| 0 <= j < rest.len() && m.impact == #[trigger] rest[j].impact;
        assert(groups[j] == rest[j]);
    }
    if exists|i: int| 0 <= i < groups.len() && #[trigger] groups[i].status == PreviewStatus::Blocked {
        let i = choose|i: int| 0 <= i < groups.len() && #[trigger] groups[i].status
            == PreviewStatus::Blocked;
        assert(status_rank_spec(r.status) >= 5);
    }
}


/// Pacman removes exactly the transaction that its dry run showed: the
/// removal asks the program of the dry run for the dry run's operation on
/// the package, adding only `--noconfirm` (and the privilege helper), and
/// that operation is a plain `-R`, which takes no dependency along that
/// the preview did not list.
pub proof fn pacman_removes_what_it_previewed(
    m: Match,
    cleanup: bool,
    dnf: Option<Seq<char>>,
    env: crate::removal::RemovalEnv,
    facts: crate::removal::FileFacts,
)
    requires
        m.backend@ == "Pacman"@,
    ensures
        step_spec(seq![m], cleanup, dnf) matches StepModel::Run(program, args, _) && args.len() == 4
            && args[3] == m.id@ && args[0] == "-R"@ && crate::removal::command_spec(m, cleanup, env, facts)
            == crate::removal::privilege_spec(seq![program, "--noconfirm"@, args[0], m.id@], env),
{
    reveal_strlit("Pacman");
    reveal_strlit("DNF");
    reveal_strlit("APT");
    reveal_strlit("APT-RPM");
    reveal_strlit("Flatpak");
    reveal_strlit("Snap");
    reveal_strlit("YUM");
    reveal_strlit("RPM");
    reveal_strlit("RPM-OSTree");
    reveal_strlit("Zypper");
    reveal_strlit("URPMI");
    assert(ids_of(seq![m]) =~= seq![m.id@]);
    assert(seq![m][0] == m);
    assert(seq!["-R"@, "--print-format"@, "%n"@] + seq![m.id@] =~= seq!["-R"@, "--print-format"@, "%n"@, m.id@]);
    let b = m.backend@;
    assert(b.len() == 6 && b[0] == 'P');
    assert(b != "DNF"@ && b != "APT"@ && b != "APT-RPM"@ && b != "Flatpak"@ && b != "Snap"@);
    assert(b != "YUM"@ && b != "RPM"@ && b != "RPM-OSTree"@ && b != "Zypper"@ && b != "URPMI"@);
    assert(!crate::removal::system_manager(b));
    assert(crate::removal::native_manager(b));
    assert(step_spec(seq![m], cleanup, dnf) == StepModel::Run(
        "pacman"@,
        seq!["-R"@, "--print-format"@, "%n"@, m.id@],
        PreviewMethod::Pacman,
    ));
    assert(crate::removal::command_spec(m, cleanup, env, facts) == crate::removal::native_manager_spec(
        m,
        cleanup,
        env,
    ));
}

} // verus!
