//! The decisions of an uninstall session: reading the user's answers,
//! what is shown of a plan, what may run without a prompt, and what the
//! command line allows.
use crate::cleanup::DataOption;
use crate::lines::{ascii_lower_chars, ascii_lower_seq, split_chars, split_on};
use crate::model::{key_spec, texts, Impact, Match, Preview, PreviewStatus};
use crate::number::{parse_usize, unsigned_value};
use crate::provenance::opt_texts_of;
use crate::text::{
    chars_eq, chars_of, first_index, find_char, lemma_first_index, owned, push_char, push_str,
    slice_chars, str_eq, string_of, trim_chars, trim_spec,
};
use crate::util::{
    deep, format_size, format_size_spec, norm, norm_spec, package_base, package_base_spec,
    sanitize, sanitize_spec,
};
use vstd::prelude::*;

verus! {

// ---------------------------------------------------------------------------
// Answers
// ---------------------------------------------------------------------------

/// An answer that agrees: `y` or `yes` in any ASCII case, around
/// whitespace.
pub open spec fn affirmative_spec(answer: Seq<char>) -> bool {
    let a = ascii_lower_seq(trim_spec(answer));
    a == "y"@ || a == "yes"@
}

/// An empty answer is no yes.
pub proof fn lemma_empty_not_affirmative(answer: Seq<char>)
    requires
        answer.len() == 0,
    ensures
        !affirmative_spec(answer),
{
    reveal_strlit("y");
    reveal_strlit("yes");
    assert(ascii_lower_seq(trim_spec(answer)).len() == 0);
}

pub fn affirmative(answer: &str) -> (r: bool)
    ensures
        r == affirmative_spec(answer@),
{
    let a = string_of(&ascii_lower_chars(&trim_chars(&chars_of(answer))));
    str_eq(a.as_str(), "y") || str_eq(a.as_str(), "yes")
}

/// The pieces of an answer between commas, trimmed, empty ones left out.
pub open spec fn choice_parts(pieces: Seq<Seq<char>>) -> Seq<Seq<char>>
    decreases pieces.len(),
{
    if pieces.len() == 0 {
        Seq::empty()
    } else if trim_spec(pieces.last()).len() > 0 {
        choice_parts(pieces.drop_last()).push(trim_spec(pieces.last()))
    } else {
        choice_parts(pieces.drop_last())
    }
}

/// A piece names an option between 1 and `count`.
pub open spec fn valid_choice(part: Seq<char>, count: nat) -> bool {
    match unsigned_value(part, usize::MAX as nat) {
        Some(n) => 1 <= n <= count,
        None => false,
    }
}

/// The option (counted from 0) that a valid piece names.
pub open spec fn choice_index(part: Seq<char>) -> int {
    unsigned_value(part, usize::MAX as nat).unwrap() - 1
}

/// The answer is `a` (all), in any ASCII case, around whitespace.
pub open spec fn chooses_all(answer: Seq<char>) -> bool {
    ascii_lower_seq(trim_spec(answer)) == "a"@
}

pub open spec fn ascending(v: Seq<usize>) -> bool {
    forall|i: int, j: int| 0 <= i < j < v.len() ==> v[i] < v[j]
}

/// What an answer chooses among `count` options: all of them for `a`;
/// otherwise each number between commas, once each and ascending, or
/// nothing when a piece is not a number of an option.
pub open spec fn choices_fit(answer: Seq<char>, count: nat, r: Option<Seq<usize>>) -> bool {
    if chooses_all(answer) {
        r == Some(Seq::new(count, |i: int| i as usize))
    } else {
        let parts = choice_parts(split_on(answer, ','));
        match r {
            None => exists|i: int| 0 <= i < parts.len() && !valid_choice(#[trigger] parts[i], count),
            Some(v) => {
                &&& forall|i: int| 0 <= i < parts.len() ==> valid_choice(#[trigger] parts[i], count)
                &&& ascending(v)
                &&& forall|x: usize|
                    v.contains(x) <==> exists|i: int|
                        0 <= i < parts.len() && choice_index(#[trigger] parts[i]) == x
            },
        }
    }
}

fn insert_sorted(v: &mut Vec<usize>, x: usize)
    requires
        ascending(old(v)@),
    ensures
        ascending(final(v)@),
        forall|y: usize| final(v)@.contains(y) <==> (old(v)@.contains(y) || y == x),
{
    let mut pos: usize = 0;
    while pos < v.len() && v[pos] < x
        invariant
            pos <= v@.len(),
            v@ == old(v)@,
            ascending(v@),
            forall|k: int| 0 <= k < pos ==> v@[k] < x,
        decreases v@.len() - pos,
    {
        pos = pos + 1;
    }
    let ghost before = v@;
    assert(before == old(v)@);
    if pos < v.len() && v[pos] == x {
        assert(v@[pos as int] == x);
        return;
    }
    v.insert(pos, x);
    assert forall|i: int, j: int| 0 <= i < j < v@.len() implies v@[i] < v@[j] by {
        if j < pos {
            assert(v@[i] == before[i] && v@[j] == before[j]);
        } else if j == pos {
            assert(v@[i] == before[i]);
        } else if i < pos {
            assert(v@[i] == before[i] && v@[j] == before[j - 1]);
            assert(before[pos as int] > x);
            if j - 1 > pos {
                assert(before[pos as int] < before[j - 1]);
            }
        } else if i == pos {
            assert(v@[j] == before[j - 1]);
            if j - 1 > pos {
                assert(before[pos as int] < before[j - 1]);
            }
        } else {
            assert(v@[i] == before[i - 1] && v@[j] == before[j - 1]);
        }
    }
    assert forall|y: usize| v@.contains(y) <==> (before.contains(y) || y == x) by {
        if before.contains(y) {
            let k = choose|k: int| 0 <= k < before.len() && before[k] == y;
            if k < pos {
                assert(v@[k] == y);
            } else {
                assert(v@[k + 1] == y);
            }
        }
        if y == x {
            assert(v@[pos as int] == x);
        }
        if v@.contains(y) {
            let k = choose|k: int| 0 <= k < v@.len() && v@[k] == y;
            if k < pos {
                assert(before[k] == y);
            } else if k > pos {
                assert(before[k - 1] == y);
            }
        }
    }
    assert(forall|y: usize| v@.contains(y) <==> (old(v)@.contains(y) || y == x));
}

proof fn lemma_choice_parts_prefix(s: Seq<Seq<char>>, n: int)
    requires
        0 <= n <= s.len(),
    ensures
        choice_parts(s.take(n)).is_prefix_of(choice_parts(s)),
    decreases s.len() - n,
{
    if n < s.len() {
        lemma_choice_parts_prefix(s.drop_last(), n);
        assert(s.drop_last().take(n) =~= s.take(n));
        assert(choice_parts(s.drop_last()).is_prefix_of(choice_parts(s)));
    } else {
        assert(s.take(n) =~= s);
    }
}

/// Reads a choice among `count` numbered options.
pub fn parse_choices(answer: &str, count: usize) -> (r: Option<Vec<usize>>)
    ensures
        choices_fit(answer@, count as nat, match r {
            Some(v) => Some(v@),
            None => None,
        }),
{
    let lowered = string_of(&ascii_lower_chars(&trim_chars(&chars_of(answer))));
    if str_eq(lowered.as_str(), "a") {
        let mut all: Vec<usize> = Vec::new();
        for i in 0..count
            invariant
                all@ == Seq::new(i as nat, |k: int| k as usize),
        {
            all.push(i);
            assert(all@ =~= Seq::new((i + 1) as nat, |k: int| k as usize));
        }
        return Some(all);
    }
    let pieces = split_chars(&chars_of(answer), ',');
    let ghost ps = deep(pieces@);
    let ghost mut seen: Seq<Seq<char>> = Seq::empty();
    let mut chosen: Vec<usize> = Vec::new();
    let mut i: usize = 0;
    assert(ps.take(0) =~= Seq::<Seq<char>>::empty());
    while i < pieces.len()
        invariant
            i <= pieces@.len(),
            ps == deep(pieces@),
            ps == split_on(answer@, ','),
            !chooses_all(answer@),
            seen == choice_parts(ps.take(i as int)),
            ascending(chosen@),
            forall|k: int| 0 <= k < seen.len() ==> valid_choice(#[trigger] seen[k], count as nat),
            forall|x: usize|
                chosen@.contains(x) <==> exists|k: int|
                    0 <= k < seen.len() && choice_index(#[trigger] seen[k]) == x,
        decreases pieces@.len() - i,
    {
        let ghost prev = seen;
        assert(ps.take(i + 1).drop_last() =~= ps.take(i as int));
        assert(ps.take(i + 1).last() == pieces@[i as int]@);
        let part = trim_chars(&pieces[i]);
        if part.len() > 0 {
            let ghost next = prev.push(part@);
            assert(choice_parts(ps.take(i + 1)) == next);
            let text = string_of(&part);
            let number = match parse_usize(text.as_str()) {
                Some(n) => n,
                None => {
                    proof {
                        lemma_choice_parts_prefix(ps, i + 1);
                        let all = choice_parts(ps);
                        assert(all[prev.len() as int] == next[prev.len() as int]);
                        assert(!valid_choice(all[prev.len() as int], count as nat));
                    }
                    return None;
                },
            };
            if number == 0 || number > count {
                proof {
                    lemma_choice_parts_prefix(ps, i + 1);
                    let all = choice_parts(ps);
                    assert(all[prev.len() as int] == next[prev.len() as int]);
                    assert(!valid_choice(all[prev.len() as int], count as nat));
                }
                return None;
            }
            let ghost before = chosen@;
            insert_sorted(&mut chosen, number - 1);
            assert(choice_index(next[prev.len() as int]) == number - 1);
            assert forall|x: usize|
                chosen@.contains(x) <==> exists|k: int|
                    0 <= k < next.len() && choice_index(#[trigger] next[k]) == x by {
                if chosen@.contains(x) && !before.contains(x) {
                    assert(choice_index(next[prev.len() as int]) == x);
                }
                if exists|k: int| 0 <= k < next.len() && choice_index(#[trigger] next[k]) == x {
                    let k = choose|k: int| 0 <= k < next.len() && choice_index(#[trigger] next[k]) == x;
                    if k < prev.len() {
                        assert(next[k] == prev[k]);
                    }
                }
                if exists|k: int| 0 <= k < prev.len() && choice_index(#[trigger] prev[k]) == x {
                    let k = choose|k: int| 0 <= k < prev.len() && choice_index(#[trigger] prev[k]) == x;
                    assert(next[k] == prev[k]);
                }
            }
            assert forall|k: int| 0 <= k < next.len() implies valid_choice(
                #[trigger] next[k],
                count as nat,
            ) by {
                if k < prev.len() {
                    assert(next[k] == prev[k]);
                }
            }
            proof {
                seen = next;
            }
        } else {
            assert(choice_parts(ps.take(i + 1)) == prev);
        }
        i = i + 1;
    }
    assert(ps.take(pieces@.len() as int) =~= ps);
    Some(chosen)
}

// ---------------------------------------------------------------------------
// What is shown of a result
// ---------------------------------------------------------------------------

/// The managers whose results always show their id.
pub open spec fn shows_id(backend: Seq<char>) -> bool {
    backend == "Flatpak"@ || backend == "Gear Lever"@ || backend == "AppImage"@ || backend
        == "Standalone"@ || backend == "Container Export"@
}

/// The id is shown under a result when its manager always shows it, or
/// when the package's base name differs from the display name.
pub open spec fn detail_identifier_spec(item: Match) -> Option<Seq<char>> {
    let package = package_base_spec(item.id@.take(first_index(item.id@, ':')));
    if shows_id(item.backend@) || norm_spec(package) != norm_spec(item.name@) {
        Some(item.id@)
    } else {
        None
    }
}

pub fn detail_identifier(item: &Match) -> (r: Option<String>)
    ensures
        opt_texts_of(r) == detail_identifier_spec(*item),
{
    let id = chars_of(item.id.as_str());
    let colon = find_char(&id, ':');
    proof {
        lemma_first_index(id@, ':');
    }
    let head = slice_chars(&id, 0, colon);
    assert(head@ =~= item.id@.take(first_index(item.id@, ':')));
    let package = package_base(string_of(&head).as_str());
    let b = item.backend.as_str();
    if str_eq(b, "Flatpak") || str_eq(b, "Gear Lever") || str_eq(b, "AppImage") || str_eq(
        b,
        "Standalone",
    ) || str_eq(b, "Container Export") || !str_eq(
        norm(package.as_str()).as_str(),
        norm(item.name.as_str()).as_str(),
    ) {
        Some(item.id.clone())
    } else {
        None
    }
}

/// Names joined by `, `, each made safe for the terminal.
pub open spec fn joined_names(names: Seq<Seq<char>>) -> Seq<char>
    decreases names.len(),
{
    if names.len() == 0 {
        Seq::empty()
    } else if names.len() == 1 {
        sanitize_spec(names[0])
    } else {
        joined_names(names.drop_last()) + ", "@ + sanitize_spec(names.last())
    }
}

fn join_names(names: &Vec<String>, n: usize) -> (r: String)
    requires
        n <= names@.len(),
    ensures
        r@ == joined_names(texts(names@).take(n as int)),
{
    let mut out = String::new();
    for i in 0..n
        invariant
            n <= names@.len(),
            out@ == joined_names(texts(names@).take(i as int)),
    {
        if i > 0 {
            push_str(&mut out, ", ");
        }
        let safe = sanitize(names[i].as_str());
        push_str(&mut out, safe.as_str());
        assert(texts(names@).take(i + 1).drop_last() =~= texts(names@).take(i as int));
        assert(texts(names@).take(i + 1).last() == names@[i as int]@);
    }
    out
}

/// A list of names for one line of text.
pub fn compact_names(names: &Vec<String>) -> (r: String)
    ensures
        names@.len() <= 12 ==> r@ == joined_names(texts(names@)),
        names@.len() > 12 ==> r@ == joined_names(texts(names@).take(12)) + " and "@
            + crate::util::decimal((names@.len() - 12) as nat) + " more"@,
{
    if names.len() <= 12 {
        let r = join_names(names, names.len());
        assert(texts(names@).take(names@.len() as int) =~= texts(names@));
        r
    } else {
        let mut r = join_names(names, 12);
        push_str(&mut r, " and ");
        let mut count = String::new();
        crate::util::push_decimal(&mut count, (names.len() - 12) as u128);
        push_str(&mut r, count.as_str());
        push_str(&mut r, " more");
        r
    }
}


// ---------------------------------------------------------------------------
// The impact of a plan
// ---------------------------------------------------------------------------

/// The base names of what was selected.
pub open spec fn requested(selected: Seq<Match>) -> Seq<Seq<char>> {
    selected.map_values(|m: Match| package_base_spec(m.id@))
}

pub open spec fn other_than_requested(selected: Seq<Match>) -> spec_fn(Seq<char>) -> bool {
    |name: Seq<char>| !requested(selected).contains(package_base_spec(name))
}

pub open spec fn additional_pred(selected: Seq<Match>, unused: Seq<Seq<char>>) -> spec_fn(Seq<char>) -> bool {
    |name: Seq<char>| !requested(selected).contains(package_base_spec(name)) && !unused.contains(name)
}

fn requested_bases(selected: &Vec<Match>) -> (r: Vec<String>)
    ensures
        texts(r@) == requested(selected@),
{
    let mut out: Vec<String> = Vec::new();
    for i in 0..selected.len()
        invariant
            texts(out@) == requested(selected@).take(i as int),
    {
        let ghost before = texts(out@);
        out.push(package_base(selected[i].id.as_str()));
        assert(texts(out@) =~= before.push(package_base_spec(selected@[i as int].id@)));
        assert(requested(selected@).take(i + 1) =~= requested(selected@).take(i as int).push(
            package_base_spec(selected@[i as int].id@),
        ));
    }
    assert(requested(selected@).take(selected@.len() as int) =~= requested(selected@));
    out
}

fn listed(v: &Vec<String>, s: &str) -> (r: bool)
    ensures
        r == texts(v@).contains(s@),
{
    for i in 0..v.len()
        invariant
            forall|j: int| 0 <= j < i ==> texts(v@)[j] != s@,
    {
        assert(texts(v@)[i as int] == v@[i as int]@);
        if str_eq(v[i].as_str(), s) {
            return true;
        }
    }
    false
}

fn filter_names(names: &Vec<String>, selected: &Vec<Match>, unused: Option<&Vec<String>>) -> (r: Vec<String>)
    ensures
        texts(r@) == match unused {
            Some(u) => texts(names@).filter(additional_pred(selected@, texts(u@))),
            None => texts(names@).filter(other_than_requested(selected@)),
        },
{
    let bases = requested_bases(selected);
    let ghost ns = texts(names@);
    let ghost pred = match unused {
        Some(u) => additional_pred(selected@, texts(u@)),
        None => other_than_requested(selected@),
    };
    let mut out: Vec<String> = Vec::new();
    proof {
        reveal(Seq::filter);
    }
    assert(ns.take(0) =~= Seq::<Seq<char>>::empty());
    for i in 0..names.len()
        invariant
            ns == texts(names@),
            texts(bases@) == requested(selected@),
            pred == match unused {
                Some(u) => additional_pred(selected@, texts(u@)),
                None => other_than_requested(selected@),
            },
            texts(out@) == ns.take(i as int).filter(pred),
    {
        proof {
            reveal(Seq::filter);
            assert(ns.take(i + 1).drop_last() =~= ns.take(i as int));
            assert(ns.take(i + 1).last() == names@[i as int]@);
        }
        let name = names[i].as_str();
        let base = package_base(name);
        let keep = !listed(&bases, base.as_str()) && match unused {
            Some(u) => !listed(u, name),
            None => true,
        };
        if keep {
            let ghost before = texts(out@);
            out.push(names[i].clone());
            assert(texts(out@) =~= before.push(names@[i as int]@));
        }
    }
    assert(ns.take(ns.len() as int) =~= ns);
    out
}

/// The packages that the plan removes besides the selection and the
/// dependencies it leaves unused.
pub fn additional_removals(plan: &Preview, selected: &Vec<Match>) -> (r: Vec<String>)
    ensures
        texts(r@) == texts(plan.planned_removals@).filter(
            additional_pred(selected@, texts(plan.unused_dependencies@)),
        ),
{
    filter_names(&plan.planned_removals, selected, Some(&plan.unused_dependencies))
}

/// The packages that the plan removes besides the selection.
pub fn extra_removals(plan: &Preview, selected: &Vec<Match>) -> (r: Vec<String>)
    ensures
        texts(r@) == texts(plan.planned_removals@).filter(other_than_requested(selected@)),
{
    filter_names(&plan.planned_removals, selected, None)
}

pub open spec fn count_text(n: nat) -> Seq<char> {
    crate::util::decimal(n)
}

pub open spec fn compact(names: Seq<Seq<char>>) -> Seq<char> {
    if names.len() <= 12 {
        joined_names(names)
    } else {
        joined_names(names.take(12)) + " and "@ + count_text((names.len() - 12) as nat) + " more"@
    }
}

/// The preview could not be trusted.
pub open spec fn unreliable(status: PreviewStatus) -> bool {
    status == PreviewStatus::Unknown || status == PreviewStatus::Failed || status
        == PreviewStatus::Unsupported
}

pub open spec fn blocker_lines(blockers: Seq<Seq<char>>) -> Seq<Seq<char>> {
    blockers.map_values(|b: Seq<char>| "\nCannot safely continue: "@ + sanitize_spec(b))
}

/// The messages that describe a plan's impact, in order.
pub open spec fn impact_report_spec(
    additional: Seq<Seq<char>>,
    unused: Seq<Seq<char>>,
    protected: Seq<Seq<char>>,
    blockers: Seq<Seq<char>>,
    status: PreviewStatus,
) -> Seq<Seq<char>> {
    (if additional.len() > 0 {
        seq![
            "\nAlso expected to remove "@ + count_text(additional.len()) + " other package"@ + (
            if additional.len() == 1 {
                ""@
            } else {
                "s"@
            }) + ": "@ + compact(additional),
        ]
    } else {
        Seq::empty()
    }) + (if unused.len() > 0 {
        seq![
            "\nAlso expected to remove "@ + count_text(unused.len()) + " now-unused dependenc"@ + (
            if unused.len() == 1 {
                "y"@
            } else {
                "ies"@
            }) + ": "@ + compact(unused),
        ]
    } else {
        Seq::empty()
    }) + (if protected.len() > 0 {
        seq!["\nWarning: the plan includes protected or critical packages: "@ + compact(protected)]
    } else {
        Seq::empty()
    }) + blocker_lines(blockers) + (if unreliable(status) {
        seq![
            "\nWarning: a reliable preview was unavailable; review the package manager's final transaction carefully."@,
        ]
    } else {
        Seq::empty()
    })
}

fn compact_of(names: &Vec<String>) -> (r: String)
    ensures
        r@ == compact(texts(names@)),
{
    compact_names(names)
}

fn counted(prefix: &str, n: usize, noun: &str, one: &str, many: &str, names: &Vec<String>) -> (r: String)
    ensures
        r@ == prefix@ + count_text(n as nat) + noun@ + (if n == 1 {
            one@
        } else {
            many@
        }) + ": "@ + compact(texts(names@)),
{
    let mut line = owned(prefix);
    crate::util::push_decimal(&mut line, n as u128);
    push_str(&mut line, noun);
    if n == 1 {
        push_str(&mut line, one);
    } else {
        push_str(&mut line, many);
    }
    push_str(&mut line, ": ");
    let c = compact_of(names);
    push_str(&mut line, c.as_str());
    line
}

/// What a plan's impact is worth telling before anything runs.
pub fn impact_report(plan: &Preview, selected: &Vec<Match>) -> (r: Vec<String>)
    ensures
        texts(r@) == impact_report_spec(
            texts(plan.planned_removals@).filter(
                additional_pred(selected@, texts(plan.unused_dependencies@)),
            ),
            texts(plan.unused_dependencies@),
            texts(plan.protected@),
            texts(plan.blockers@),
            plan.status,
        ),
{
    let additional = additional_removals(plan, selected);
    let mut out: Vec<String> = Vec::new();
    if additional.len() > 0 {
        out.push(
            counted(
                "\nAlso expected to remove ",
                additional.len(),
                " other package",
                "",
                "s",
                &additional,
            ),
        );
    }
    let ghost first = texts(out@);
    let ghost sp = impact_report_spec(
        texts(additional@),
        texts(plan.unused_dependencies@),
        texts(plan.protected@),
        texts(plan.blockers@),
        plan.status,
    );
    assert(first =~= (if additional@.len() > 0 {
        seq![
            "\nAlso expected to remove "@ + count_text(additional@.len()) + " other package"@ + (
            if additional@.len() == 1 {
                ""@
            } else {
                "s"@
            }) + ": "@ + compact(texts(additional@)),
        ]
    } else {
        Seq::<Seq<char>>::empty()
    }));
    let unused = &plan.unused_dependencies;
    if unused.len() > 0 {
        out.push(
            counted(
                "\nAlso expected to remove ",
                unused.len(),
                " now-unused dependenc",
                "y",
                "ies",
                unused,
            ),
        );
    }
    let ghost second = texts(out@);
    assert(second =~= first + (if texts(plan.unused_dependencies@).len() > 0 {
        seq![
            "\nAlso expected to remove "@ + count_text(texts(plan.unused_dependencies@).len())
                + " now-unused dependenc"@ + (if texts(plan.unused_dependencies@).len() == 1 {
                "y"@
            } else {
                "ies"@
            }) + ": "@ + compact(texts(plan.unused_dependencies@)),
        ]
    } else {
        Seq::<Seq<char>>::empty()
    }));
    if plan.protected.len() > 0 {
        let mut line = owned("\nWarning: the plan includes protected or critical packages: ");
        let c = compact_of(&plan.protected);
        push_str(&mut line, c.as_str());
        out.push(line);
    }
    let ghost third = texts(out@);
    assert(third =~= second + (if texts(plan.protected@).len() > 0 {
        seq!["\nWarning: the plan includes protected or critical packages: "@ + compact(texts(plan.protected@))]
    } else {
        Seq::<Seq<char>>::empty()
    }));
    for i in 0..plan.blockers.len()
        invariant
            texts(out@) == third + blocker_lines(texts(plan.blockers@)).take(i as int),
    {
        let mut line = owned("\nCannot safely continue: ");
        let safe = sanitize(plan.blockers[i].as_str());
        push_str(&mut line, safe.as_str());
        let ghost before = texts(out@);
        out.push(line);
        assert(texts(out@) =~= before.push(line@));
        assert(blocker_lines(texts(plan.blockers@)).take(i + 1) =~= blocker_lines(
            texts(plan.blockers@),
        ).take(i as int).push(line@));
    }
    assert(blocker_lines(texts(plan.blockers@)).take(plan.blockers@.len() as int)
        =~= blocker_lines(texts(plan.blockers@)));
    let ghost fourth = texts(out@);
    if plan.status == PreviewStatus::Unknown || plan.status == PreviewStatus::Failed || plan.status
        == PreviewStatus::Unsupported {
        out.push(
            owned(
                "\nWarning: a reliable preview was unavailable; review the package manager's final transaction carefully.",
            ),
        );
    }
    assert(texts(out@) =~= fourth + (if unreliable(plan.status) {
        seq![
            "\nWarning: a reliable preview was unavailable; review the package manager's final transaction carefully."@,
        ]
    } else {
        Seq::<Seq<char>>::empty()
    }));
    assert(texts(out@) =~= impact_report_spec(
        texts(additional@),
        texts(plan.unused_dependencies@),
        texts(plan.protected@),
        texts(plan.blockers@),
        plan.status,
    ));
    out
}


// ---------------------------------------------------------------------------
// Data options and the final confirmation
// ---------------------------------------------------------------------------

/// The managers that own some of the data options.
pub open spec fn option_managers(options: Seq<DataOption>) -> Seq<Seq<char>> {
    options.filter(|o: DataOption| o.backend is Some).map_values(|o: DataOption| o.backend.unwrap()@)
}

/// The note on manager-owned data: the manager when only one owns
/// options, a general note when several do.
pub open spec fn manager_note_spec(managers: Seq<Seq<char>>) -> Seq<char> {
    if managers.len() == 0 {
        Seq::empty()
    } else if forall|i: int| 0 <= i < managers.len() ==> #[trigger] managers[i] == managers[0] {
        managers[0] + " data is manager-owned."@
    } else {
        "Package-manager data is manager-owned."@
    }
}

pub fn manager_note(options: &Vec<DataOption>) -> (r: String)
    ensures
        r@ == manager_note_spec(option_managers(options@)),
{
    let ghost ms = option_managers(options@);
    let mut first: Option<String> = None;
    let mut several = false;
    let mut found: Vec<String> = Vec::new();
    proof {
        reveal(Seq::filter);
    }
    for i in 0..options.len()
        invariant
            ms == option_managers(options@),
            texts(found@) == options@.take(i as int).filter(|o: DataOption| o.backend is Some).map_values(
                |o: DataOption| o.backend.unwrap()@,
            ),
    {
        proof {
            reveal(Seq::filter);
            assert(options@.take(i + 1).drop_last() =~= options@.take(i as int));
            assert(options@.take(i + 1).last() == options@[i as int]);
        }
        let ghost before = texts(found@);
        match &options[i].backend {
            Some(b) => {
                found.push(b.clone());
                assert(texts(found@) =~= before.push(b@));
                assert(options@.take(i + 1).filter(|o: DataOption| o.backend is Some).map_values(
                    |o: DataOption| o.backend.unwrap()@,
                ) =~= before.push(b@));
            },
            None => {},
        }
    }
    assert(options@.take(options@.len() as int) =~= options@);
    assert(texts(found@) == ms);
    if found.len() == 0 {
        return String::new();
    }
    let mut same = true;
    for i in 0..found.len()
        invariant
            found@.len() > 0,
            same <==> forall|j: int| 0 <= j < i ==> #[trigger] texts(found@)[j] == texts(found@)[0],
    {
        assert(texts(found@)[i as int] == found@[i as int]@);
        assert(texts(found@)[0] == found@[0]@);
        if !str_eq(found[i].as_str(), found[0].as_str()) {
            same = false;
        }
    }
    if same {
        let mut note = found[0].clone();
        push_str(&mut note, " data is manager-owned.");
        assert(texts(found@)[0] == found@[0]@);
        note
    } else {
        owned("Package-manager data is manager-owned.")
    }
}

/// The heading over the commands that are about to run.
pub open spec fn ready_heading_spec(size: u64, complete: bool) -> Seq<char> {
    if size == 0 {
        "Ready to run:"@
    } else if complete {
        "Ready to run (freeing about "@ + format_size_spec(size as nat) + "):"@
    } else {
        "Ready to run (freeing at least "@ + format_size_spec(size as nat) + "; some sizes unknown):"@
    }
}

pub fn ready_heading(size: u64, complete: bool) -> (r: String)
    ensures
        r@ == ready_heading_spec(size, complete),
{
    if size == 0 {
        owned("Ready to run:")
    } else if complete {
        let mut h = owned("Ready to run (freeing about ");
        push_str(&mut h, format_size(size).as_str());
        push_str(&mut h, "):");
        h
    } else {
        let mut h = owned("Ready to run (freeing at least ");
        push_str(&mut h, format_size(size).as_str());
        push_str(&mut h, "; some sizes unknown):");
        h
    }
}

/// A chosen data path outside the home directory.
pub open spec fn outside_home_spec(paths: Seq<Seq<char>>, home: Seq<char>) -> bool {
    exists|i: int| 0 <= i < paths.len() && !crate::util::path_within_spec(#[trigger] paths[i], home)
}

pub fn outside_home(paths: &Vec<String>, home: &str) -> (r: bool)
    ensures
        r == outside_home_spec(texts(paths@), home@),
{
    for i in 0..paths.len()
        invariant
            forall|j: int| 0 <= j < i ==> crate::util::path_within_spec(#[trigger] texts(paths@)[j], home@),
    {
        assert(texts(paths@)[i as int] == paths@[i as int]@);
        if !crate::util::path_within(paths[i].as_str(), home) {
            return true;
        }
    }
    false
}

pub open spec fn all_standalone(selected: Seq<Match>) -> bool {
    forall|i: int| 0 <= i < selected.len() ==> (#[trigger] selected[i]).backend@ == "Standalone"@
}

/// What must be typed to go on, and why; none when a yes is enough: a
/// high or unknown impact, or data outside the home directory, asks for
/// `REMOVE` and the name (or `REMOVE ALL`).
pub open spec fn confirmation_spec(impact: Impact, selected: Seq<Match>, outside: bool) -> Option<(Seq<char>, Seq<char>)> {
    if impact == Impact::High || impact == Impact::Unknown || outside {
        let expected = if selected.len() == 1 {
            "REMOVE "@ + sanitize_spec(selected[0].name@)
        } else {
            "REMOVE ALL"@
        };
        let label = if outside {
            "Data outside your home directory"@
        } else if impact == Impact::Unknown && all_standalone(selected) {
            "Standalone removal"@
        } else if impact == Impact::High {
            "High-impact transaction"@
        } else {
            "Unknown-impact transaction"@
        };
        Some((expected, label))
    } else {
        None
    }
}

pub fn confirmation(impact: Impact, selected: &Vec<Match>, outside: bool) -> (r: Option<(String, String)>)
    ensures
        match r {
            Some((e, l)) => confirmation_spec(impact, selected@, outside) == Some((e@, l@)),
            None => confirmation_spec(impact, selected@, outside) is None,
        },
{
    if !(impact == Impact::High || impact == Impact::Unknown || outside) {
        return None;
    }
    let expected = if selected.len() == 1 {
        let mut e = owned("REMOVE ");
        push_str(&mut e, sanitize(selected[0].name.as_str()).as_str());
        e
    } else {
        owned("REMOVE ALL")
    };
    let mut standalone = true;
    for i in 0..selected.len()
        invariant
            standalone <==> forall|j: int|
                0 <= j < i ==> (#[trigger] selected@[j]).backend@ == "Standalone"@,
    {
        if !str_eq(selected[i].backend.as_str(), "Standalone") {
            standalone = false;
        }
    }
    let label = if outside {
        owned("Data outside your home directory")
    } else if impact == Impact::Unknown && standalone {
        owned("Standalone removal")
    } else if impact == Impact::High {
        owned("High-impact transaction")
    } else {
        owned("Unknown-impact transaction")
    };
    Some((expected, label))
}

// ---------------------------------------------------------------------------
// Removal without prompts
// ---------------------------------------------------------------------------

/// Equal in ASCII case-insensitive comparison.
pub open spec fn same_ignoring_case(a: Seq<char>, b: Seq<char>) -> bool {
    ascii_lower_seq(a) == ascii_lower_seq(b)
}

pub open spec fn exact_target(backend: Seq<char>, query: Seq<char>) -> spec_fn(Match) -> bool {
    |m: Match| same_ignoring_case(m.backend@, backend) && same_ignoring_case(m.id@, query)
}

fn same_case_insensitive(a: &str, b: &str) -> (r: bool)
    ensures
        r == same_ignoring_case(a@, b@),
{
    let x = ascii_lower_chars(&chars_of(a));
    let y = ascii_lower_chars(&chars_of(b));
    chars_eq(&x, &y)
}

/// The results that a non-interactive removal names exactly: the backend
/// and the package id, in any ASCII case.
pub fn exact_targets(matches: &Vec<Match>, backend: &str, query: &str) -> (r: Vec<Match>)
    ensures
        r@ == matches@.filter(exact_target(backend@, query@)),
{
    let mut out: Vec<Match> = Vec::new();
    let ghost pred = exact_target(backend@, query@);
    proof {
        reveal(Seq::filter);
    }
    assert(matches@.take(0) =~= Seq::<Match>::empty());
    for i in 0..matches.len()
        invariant
            pred == exact_target(backend@, query@),
            out@ == matches@.take(i as int).filter(pred),
    {
        proof {
            reveal(Seq::filter);
            assert(matches@.take(i + 1).drop_last() =~= matches@.take(i as int));
            assert(matches@.take(i + 1).last() == matches@[i as int]);
        }
        let m = &matches[i];
        if same_case_insensitive(m.backend.as_str(), backend) && same_case_insensitive(
            m.id.as_str(),
            query,
        ) {
            out.push(m.duplicate());
        }
    }
    assert(matches@.take(matches@.len() as int) =~= matches@);
    out
}

/// The authorization that a non-interactive removal must carry.
pub open spec fn authorization_spec(item: Match) -> Seq<char> {
    "REMOVE "@ + item.backend@ + seq![':'] + item.id@
}

pub fn authorization(item: &Match) -> (r: String)
    ensures
        r@ == authorization_spec(*item),
{
    let mut a = owned("REMOVE ");
    push_str(&mut a, item.backend.as_str());
    push_char(&mut a, ':');
    push_str(&mut a, item.id.as_str());
    a
}

/// Only an exact preview of low or cautionary impact runs without review.
pub open spec fn unattended_spec(status: PreviewStatus, impact: Impact) -> bool {
    status == PreviewStatus::Exact && (impact == Impact::Low || impact == Impact::Caution)
}

pub fn unattended_allowed(plan: &Preview) -> (r: bool)
    ensures
        r == unattended_spec(plan.status, plan.impact),
{
    plan.status == PreviewStatus::Exact && (plan.impact == Impact::Low || plan.impact
        == Impact::Caution)
}

// ---------------------------------------------------------------------------
// The command line
// ---------------------------------------------------------------------------

/// The flags that were given.
pub struct Flags {
    pub app: bool,
    pub self_uninstall: bool,
    pub show_dependencies: bool,
    pub json: bool,
    pub backend: bool,
    pub confirm: bool,
}

/// Why a command line is refused.
#[derive(Clone, Copy, Debug, PartialEq, Eq, Structural)]
pub enum FlagProblem {
    SelfUninstallCombined,
    JsonWithoutApp,
    JsonWithAuthorization,
    BackendWithoutConfirm,
    AuthorizationWithDependencies,
}

impl FlagProblem {
    pub open spec fn message_spec(self) -> Seq<char> {
        match self {
            FlagProblem::SelfUninstallCombined => "--self-uninstall cannot be combined with an app or another mode"@,
            FlagProblem::JsonWithoutApp => "--json requires an app query"@,
            FlagProblem::JsonWithAuthorization => "--json cannot be combined with --backend or --confirm"@,
            FlagProblem::BackendWithoutConfirm => "--backend and --confirm must be used together"@,
            FlagProblem::AuthorizationWithDependencies => "non-interactive removal cannot use --show-dependencies"@,
        }
    }

    /// The message shown for the problem.
    pub fn message(self) -> (r: &'static str)
        ensures
            r@ == self.message_spec(),
    {
        match self {
            FlagProblem::SelfUninstallCombined => "--self-uninstall cannot be combined with an app or another mode",
            FlagProblem::JsonWithoutApp => "--json requires an app query",
            FlagProblem::JsonWithAuthorization => "--json cannot be combined with --backend or --confirm",
            FlagProblem::BackendWithoutConfirm => "--backend and --confirm must be used together",
            FlagProblem::AuthorizationWithDependencies => "non-interactive removal cannot use --show-dependencies",
        }
    }

    /// Whether the problem is a missing argument (rather than a conflict).
    pub fn is_missing(self) -> (r: bool)
        ensures
            r == (self == FlagProblem::JsonWithoutApp || self == FlagProblem::BackendWithoutConfirm),
    {
        match self {
            FlagProblem::JsonWithoutApp | FlagProblem::BackendWithoutConfirm => true,
            _ => false,
        }
    }
}

/// The first rule that a command line breaks, checked in order.
pub open spec fn flag_problem_spec(f: Flags) -> Option<FlagProblem> {
    if f.self_uninstall && (f.app || f.show_dependencies || f.json || f.backend || f.confirm) {
        Some(FlagProblem::SelfUninstallCombined)
    } else if f.self_uninstall {
        None
    } else if f.json && !f.app {
        Some(FlagProblem::JsonWithoutApp)
    } else if f.json && (f.backend || f.confirm) {
        Some(FlagProblem::JsonWithAuthorization)
    } else if f.backend != f.confirm {
        Some(FlagProblem::BackendWithoutConfirm)
    } else if f.backend && f.show_dependencies {
        Some(FlagProblem::AuthorizationWithDependencies)
    } else {
        None
    }
}

pub fn flag_problem(f: &Flags) -> (r: Option<FlagProblem>)
    ensures
        r == flag_problem_spec(*f),
{
    if f.self_uninstall && (f.app || f.show_dependencies || f.json || f.backend || f.confirm) {
        Some(FlagProblem::SelfUninstallCombined)
    } else if f.self_uninstall {
        None
    } else if f.json && !f.app {
        Some(FlagProblem::JsonWithoutApp)
    } else if f.json && (f.backend || f.confirm) {
        Some(FlagProblem::JsonWithAuthorization)
    } else if f.backend != f.confirm {
        Some(FlagProblem::BackendWithoutConfirm)
    } else if f.backend && f.show_dependencies {
        Some(FlagProblem::AuthorizationWithDependencies)
    } else {
        None
    }
}

/// What a session does once the flags are accepted.
#[derive(Clone, Copy, Debug, PartialEq, Eq, Structural)]
pub enum Mode {
    NothingEntered,
    SelfUninstall,
    Json,
    Unattended,
    Interactive,
}

/// The mode for a query: nothing entered, removing the tool itself (also
/// when the query is `uninstall` with no other mode), a JSON report, a
/// non-interactive removal, or an interactive session.
pub open spec fn mode_spec(f: Flags, query: Seq<char>) -> Mode {
    if f.self_uninstall {
        Mode::SelfUninstall
    } else if trim_spec(query).len() == 0 {
        Mode::NothingEntered
    } else if same_ignoring_case(trim_spec(query), "uninstall"@) && !f.show_dependencies && !f.json
        && !f.backend {
        Mode::SelfUninstall
    } else if f.json {
        Mode::Json
    } else if f.backend && f.confirm {
        Mode::Unattended
    } else {
        Mode::Interactive
    }
}

pub fn mode(f: &Flags, query: &str) -> (r: Mode)
    ensures
        r == mode_spec(*f, query@),
{
    if f.self_uninstall {
        return Mode::SelfUninstall;
    }
    let t = trim_chars(&chars_of(query));
    if t.len() == 0 {
        return Mode::NothingEntered;
    }
    if same_case_insensitive(string_of(&t).as_str(), "uninstall") && !f.show_dependencies && !f.json
        && !f.backend {
        return Mode::SelfUninstall;
    }
    if f.json {
        Mode::Json
    } else if f.backend && f.confirm {
        Mode::Unattended
    } else {
        Mode::Interactive
    }
}


// ---------------------------------------------------------------------------
// Sizes
// ---------------------------------------------------------------------------

/// A size that saturates at the largest `u64`.
pub open spec fn capped(n: int) -> nat {
    if n > u64::MAX {
        u64::MAX as nat
    } else if n < 0 {
        0
    } else {
        n as nat
    }
}

/// The sum of the known sizes.
pub open spec fn known_total(sizes: Seq<Option<u64>>) -> int
    decreases sizes.len(),
{
    if sizes.len() == 0 {
        0
    } else {
        known_total(sizes.drop_last()) + match sizes.last() {
            Some(v) => v as int,
            None => 0int,
        }
    }
}

pub open spec fn all_known(sizes: Seq<Option<u64>>) -> bool {
    forall|i: int| 0 <= i < sizes.len() ==> (#[trigger] sizes[i]) is Some
}

pub open spec fn selected_sizes(selected: Seq<Match>) -> Seq<Option<u64>> {
    selected.map_values(|m: Match| m.installed_size_bytes)
}

pub open spec fn chosen_sizes(options: Seq<DataOption>, choices: Seq<usize>) -> Seq<Option<u64>> {
    choices.map_values(|c: usize| options[c as int].size_bytes)
}

proof fn lemma_capped_step(a: int, b: int, c: int)
    requires
        a >= 0,
        b >= 0,
        c >= 0,
    ensures
        capped(capped(a + b) + c) == capped(a + b + c),
        capped(a + capped(b)) == capped(a + b),
{
}

proof fn lemma_totals_nonnegative(sizes: Seq<Option<u64>>)
    ensures
        known_total(sizes) >= 0,
    decreases sizes.len(),
{
    if sizes.len() > 0 {
        lemma_totals_nonnegative(sizes.drop_last());
    }
}

proof fn lemma_opt_total_nonnegative(sizes: Seq<Option<nat>>)
    ensures
        opt_total(sizes) >= 0,
    decreases sizes.len(),
{
    if sizes.len() > 0 {
        lemma_opt_total_nonnegative(sizes.drop_last());
    }
}

fn sum_sizes(sizes: &Vec<Option<u64>>) -> (r: (u64, bool))
    ensures
        r.0 as nat == capped(known_total(sizes@)),
        r.1 == all_known(sizes@),
{
    let mut total: u64 = 0;
    let mut complete = true;
    for i in 0..sizes.len()
        invariant
            total as nat == capped(known_total(sizes@.take(i as int))),
            complete == all_known(sizes@.take(i as int)),
    {
        assert(sizes@.take(i + 1).drop_last() =~= sizes@.take(i as int));
        assert(sizes@.take(i + 1).last() == sizes@[i as int]);
        match sizes[i] {
            Some(v) => {
                proof {
                    lemma_totals_nonnegative(sizes@.take(i as int));
                    lemma_capped_step(known_total(sizes@.take(i as int)), v as int, 0);
                }
                total = total.saturating_add(v);
            },
            None => {
                complete = false;
                assert(!(sizes@.take(i + 1)[i as int] is Some));
            },
        }
        assert(complete == all_known(sizes@.take(i + 1))) by {
            if complete {
                assert forall|k: int| 0 <= k < i + 1 implies (#[trigger] sizes@.take(i + 1)[k]) is Some by {
                    if k < i {
                        assert(sizes@.take(i + 1)[k] == sizes@.take(i as int)[k]);
                    }
                }
            } else if all_known(sizes@.take(i as int)) {
                assert(!(sizes@.take(i + 1)[i as int] is Some));
            } else {
                let k = choose|k: int| 0 <= k < i && !(#[trigger] sizes@.take(i as int)[k] is Some);
                assert(sizes@.take(i + 1)[k] == sizes@.take(i as int)[k]);
            }
        }
    }
    assert(sizes@.take(sizes@.len() as int) =~= sizes@);
    (total, complete)
}

/// About how much a removal frees: the selection's sizes, the other
/// packages' (as `extra`), and the chosen data's, added without
/// overflowing; complete when every size is known.
pub fn estimate(
    selected: &Vec<Match>,
    options: &Vec<DataOption>,
    choices: &Vec<usize>,
    extra: (u64, bool),
) -> (r: (u64, bool))
    requires
        forall|i: int| 0 <= i < choices@.len() ==> (#[trigger] choices@[i]) < options@.len(),
    ensures
        r.0 as nat == capped(
            known_total(selected_sizes(selected@)) + extra.0 + known_total(
                chosen_sizes(options@, choices@),
            ),
        ),
        r.1 == (all_known(selected_sizes(selected@)) && extra.1 && all_known(
            chosen_sizes(options@, choices@),
        )),
{
    let mut own: Vec<Option<u64>> = Vec::new();
    for i in 0..selected.len()
        invariant
            own@ == selected_sizes(selected@).take(i as int),
    {
        own.push(selected[i].installed_size_bytes);
        assert(own@ =~= selected_sizes(selected@).take(i + 1));
    }
    assert(selected_sizes(selected@).take(selected@.len() as int) =~= selected_sizes(selected@));
    let mut data: Vec<Option<u64>> = Vec::new();
    for i in 0..choices.len()
        invariant
            forall|k: int| 0 <= k < choices@.len() ==> (#[trigger] choices@[k]) < options@.len(),
            data@ == chosen_sizes(options@, choices@).take(i as int),
    {
        let c = choices[i];
        data.push(options[c].size_bytes);
        assert(data@ =~= chosen_sizes(options@, choices@).take(i + 1));
    }
    assert(chosen_sizes(options@, choices@).take(choices@.len() as int) =~= chosen_sizes(
        options@,
        choices@,
    ));
    let (a, a_complete) = sum_sizes(&own);
    let (d, d_complete) = sum_sizes(&data);
    proof {
        let x = known_total(selected_sizes(selected@));
        let z = known_total(chosen_sizes(options@, choices@));
        lemma_totals_nonnegative(selected_sizes(selected@));
        lemma_totals_nonnegative(chosen_sizes(options@, choices@));
        lemma_capped_step(capped(x) as int, extra.0 as int, 0);
        lemma_capped_step(x, extra.0 as int, z);
        assert(capped(capped(x) + extra.0) == capped(x + extra.0));
        assert(capped(capped(x + extra.0) + capped(z) as int) == capped(x + extra.0 + z));
    }
    (a.saturating_add(extra.0).saturating_add(d), a_complete && extra.1 && d_complete)
}

/// The single manager of a selection, when there is one.
pub open spec fn single_backend_spec(selected: Seq<Match>) -> Option<Seq<char>> {
    if selected.len() > 0 && forall|i: int|
        0 <= i < selected.len() ==> (#[trigger] selected[i]).backend@ == selected[0].backend@ {
        Some(selected[0].backend@)
    } else {
        None
    }
}

pub fn single_backend(selected: &Vec<Match>) -> (r: Option<String>)
    ensures
        opt_texts_of(r) == single_backend_spec(selected@),
{
    if selected.len() == 0 {
        return None;
    }
    for i in 0..selected.len()
        invariant
            selected@.len() > 0,
            forall|j: int| 0 <= j < i ==> (#[trigger] selected@[j]).backend@ == selected@[0].backend@,
    {
        if !str_eq(selected[i].backend.as_str(), selected[0].backend.as_str()) {
            return None;
        }
    }
    Some(selected[0].backend.clone())
}

/// A `name<TAB>size` line read into the package's base name and its size
/// in bytes (`kib`: the size is in KiB).
pub open spec fn size_line(line: Seq<char>, kib: bool) -> Option<(Seq<char>, nat)> {
    let at = first_index(line, '\t');
    if at < line.len() {
        match unsigned_value(trim_spec(line.skip(at + 1)), u64::MAX as nat) {
            Some(v) => Some((package_base_spec(line.take(at)), if kib {
                capped(v * 1024int)
            } else {
                v
            })),
            None => None,
        }
    } else {
        None
    }
}

pub open spec fn size_lines(lines: Seq<Seq<char>>, kib: bool) -> Seq<(Seq<char>, nat)>
    decreases lines.len(),
{
    if lines.len() == 0 {
        Seq::empty()
    } else {
        match size_line(lines.last(), kib) {
            Some(e) => size_lines(lines.drop_last(), kib).push(e),
            None => size_lines(lines.drop_last(), kib),
        }
    }
}

pub open spec fn table_view(t: Seq<(String, u64)>) -> Seq<(Seq<char>, nat)> {
    t.map_values(|e: (String, u64)| (e.0@, e.1 as nat))
}

/// Reads the sizes that `rpm -q` (bytes) or `dpkg-query -W` (KiB) printed
/// as `name<TAB>size` lines.
pub fn size_table(text: &str, kib: bool) -> (r: Vec<(String, u64)>)
    ensures
        table_view(r@) == size_lines(crate::lines::lines_spec(text@), kib),
{
    let lines = crate::lines::lines_of(&chars_of(text));
    let ghost ls = crate::lines::lines_spec(text@);
    let mut out: Vec<(String, u64)> = Vec::new();
    for i in 0..lines.len()
        invariant
            deep(lines@) == ls,
            table_view(out@) == size_lines(ls.take(i as int), kib),
    {
        assert(ls.take(i + 1).drop_last() =~= ls.take(i as int));
        assert(ls.take(i + 1).last() == lines@[i as int]@);
        let line = &lines[i];
        let at = find_char(line, '\t');
        proof {
            lemma_first_index(line@, '\t');
        }
        if at < line.len() {
            let name = slice_chars(line, 0, at);
            let rest = slice_chars(line, at + 1, line.len());
            assert(name@ =~= line@.take(at as int));
            assert(rest@ =~= line@.skip(at + 1));
            let size_text = string_of(&trim_chars(&rest));
            match crate::number::parse_u64(size_text.as_str()) {
                Some(v) => {
                    let bytes = if !kib {
                        v
                    } else if v <= u64::MAX / 1024 {
                        v * 1024
                    } else {
                        u64::MAX
                    };
                    let base = package_base(string_of(&name).as_str());
                    let ghost before = table_view(out@);
                    let ghost entry = (base@, bytes as nat);
                    out.push((base, bytes));
                    assert(table_view(out@) =~= before.push(entry));
                },
                None => {},
            }
        }
    }
    assert(ls.take(ls.len() as int) =~= ls);
    out
}

/// The size that a table gives a name: its last entry wins.
pub open spec fn table_lookup(t: Seq<(Seq<char>, nat)>, key: Seq<char>) -> Option<nat>
    decreases t.len(),
{
    if t.len() == 0 {
        None
    } else if t.last().0 == key {
        Some(t.last().1)
    } else {
        table_lookup(t.drop_last(), key)
    }
}

pub open spec fn planned_sizes(names: Seq<Seq<char>>, t: Seq<(Seq<char>, nat)>) -> Seq<Option<nat>> {
    names.map_values(|n: Seq<char>| table_lookup(t, package_base_spec(n)))
}

pub open spec fn opt_total(sizes: Seq<Option<nat>>) -> int
    decreases sizes.len(),
{
    if sizes.len() == 0 {
        0
    } else {
        opt_total(sizes.drop_last()) + match sizes.last() {
            Some(v) => v as int,
            None => 0int,
        }
    }
}

fn lookup(table: &Vec<(String, u64)>, key: &str) -> (r: Option<u64>)
    ensures
        match r {
            Some(v) => table_lookup(table_view(table@), key@) == Some(v as nat),
            None => table_lookup(table_view(table@), key@) is None,
        },
{
    let ghost tv = table_view(table@);
    let mut i: usize = table.len();
    assert(tv.take(i as int) =~= tv);
    while i > 0
        invariant
            i <= table@.len(),
            tv == table_view(table@),
            table_lookup(tv, key@) == table_lookup(tv.take(i as int), key@),
        decreases i,
    {
        assert(tv.take(i as int).last() == (table@[i - 1].0@, table@[i - 1].1 as nat));
        if str_eq(table[i - 1].0.as_str(), key) {
            return Some(table[i - 1].1);
        }
        assert(tv.take(i as int).drop_last() =~= tv.take(i - 1));
        i = i - 1;
    }
    None
}

/// The sizes of the other packages of a plan: their total (saturating),
/// and whether every one was found.
pub fn planned_total(names: &Vec<String>, table: &Vec<(String, u64)>) -> (r: (u64, bool))
    ensures
        r.0 as nat == capped(opt_total(planned_sizes(texts(names@), table_view(table@)))),
        r.1 == forall|i: int|
            0 <= i < names@.len() ==> (#[trigger] planned_sizes(texts(names@), table_view(table@))[i]) is Some,
{
    let ghost ps = planned_sizes(texts(names@), table_view(table@));
    let mut total: u64 = 0;
    let mut complete = true;
    for i in 0..names.len()
        invariant
            ps == planned_sizes(texts(names@), table_view(table@)),
            total as nat == capped(opt_total(ps.take(i as int))),
            complete == forall|k: int| 0 <= k < i ==> (#[trigger] ps[k]) is Some,
    {
        assert(ps.take(i + 1).drop_last() =~= ps.take(i as int));
        assert(ps.take(i + 1).last() == ps[i as int]);
        let base = package_base(names[i].as_str());
        assert(ps[i as int] == table_lookup(table_view(table@), base@));
        match lookup(table, base.as_str()) {
            Some(v) => {
                proof {
                    lemma_opt_total_nonnegative(ps.take(i as int));
                    lemma_capped_step(opt_total(ps.take(i as int)), v as int, 0);
                }
                total = total.saturating_add(v);
            },
            None => {
                complete = false;
            },
        }
    }
    assert(ps.take(names@.len() as int) =~= ps);
    (total, complete)
}


// ---------------------------------------------------------------------------
// Files removed directly
// ---------------------------------------------------------------------------

/// The resolved form of a path as the caller found it, if it could.
pub open spec fn resolved_of(pairs: Seq<(Seq<char>, Option<Seq<char>>)>, p: Seq<char>) -> Option<Seq<char>>
    decreases pairs.len(),
{
    if pairs.len() == 0 {
        None
    } else if pairs[0].0 == p {
        pairs[0].1
    } else {
        resolved_of(pairs.drop_first(), p)
    }
}

pub open spec fn resolved_view(v: Seq<(String, Option<String>)>) -> Seq<(Seq<char>, Option<Seq<char>>)> {
    v.map_values(|e: (String, Option<String>)| (e.0@, opt_texts_of(e.1)))
}

pub open spec fn direct_backend(b: Seq<char>) -> bool {
    b == "AppImage"@ || b == "Standalone"@
}

/// The files of one selected result: its own file and, for an AppImage,
/// the command that exposes it when that is another path to the same
/// file.
pub open spec fn item_targets(m: Match, pairs: Seq<(Seq<char>, Option<Seq<char>>)>) -> Seq<Seq<char>> {
    if !direct_backend(m.backend@) {
        Seq::empty()
    } else {
        (match m.source_path {
            Some(s) => seq![s@],
            None => Seq::empty(),
        }) + (match (m.source_path, m.command_path) {
            (Some(s), Some(c)) => if m.backend@ == "AppImage"@ && !crate::paths::same_path(s@, c@)
                && resolved_of(pairs, s@) == resolved_of(pairs, c@) {
                seq![c@]
            } else {
                Seq::empty()
            },
            _ => Seq::empty(),
        })
    }
}

pub open spec fn target_candidates(selected: Seq<Match>, pairs: Seq<(Seq<char>, Option<Seq<char>>)>) -> Seq<Seq<char>>
    decreases selected.len(),
{
    if selected.len() == 0 {
        Seq::empty()
    } else {
        target_candidates(selected.drop_last(), pairs) + item_targets(selected.last(), pairs)
    }
}

fn resolved_lookup(pairs: &Vec<(String, Option<String>)>, p: &str) -> (r: Option<String>)
    ensures
        opt_texts_of(r) == resolved_of(resolved_view(pairs@), p@),
{
    let ghost pv = resolved_view(pairs@);
    let mut i: usize = 0;
    assert(pv.skip(0) =~= pv);
    while i < pairs.len()
        invariant
            i <= pairs@.len(),
            pv == resolved_view(pairs@),
            resolved_of(pv, p@) == resolved_of(pv.skip(i as int), p@),
        decreases pairs@.len() - i,
    {
        assert(pv.skip(i as int)[0] == (pairs@[i as int].0@, opt_texts_of(pairs@[i as int].1)));
        if str_eq(pairs[i].0.as_str(), p) {
            return match &pairs[i].1 {
                Some(c) => Some(c.clone()),
                None => None,
            };
        }
        assert(pv.skip(i as int).drop_first() =~= pv.skip(i + 1));
        i = i + 1;
    }
    None
}

fn same_resolved(a: &Option<String>, b: &Option<String>) -> (r: bool)
    ensures
        r == (opt_texts_of(*a) == opt_texts_of(*b)),
{
    match (a, b) {
        (Some(x), Some(y)) => str_eq(x.as_str(), y.as_str()),
        (None, None) => true,
        _ => false,
    }
}

/// The files that removing the selection deletes directly, in `Path`
/// order and once each; `resolved` holds the resolved form of their
/// paths, as the caller found them on disk.
pub fn file_targets(selected: &Vec<Match>, resolved: &Vec<(String, Option<String>)>) -> (r: Vec<String>)
    ensures
        crate::paths::sorted_paths_of(
            target_candidates(selected@, resolved_view(resolved@)),
            texts(r@),
        ),
{
    let ghost pv = resolved_view(resolved@);
    let mut candidates: Vec<String> = Vec::new();
    for i in 0..selected.len()
        invariant
            pv == resolved_view(resolved@),
            texts(candidates@) == target_candidates(selected@.take(i as int), pv),
    {
        let item = &selected[i];
        assert(selected@.take(i + 1).drop_last() =~= selected@.take(i as int));
        assert(selected@.take(i + 1).last() == *item);
        let ghost before = texts(candidates@);
        let b = item.backend.as_str();
        if str_eq(b, "AppImage") || str_eq(b, "Standalone") {
            match &item.source_path {
                Some(s) => {
                    candidates.push(s.clone());
                },
                None => {},
            }
            let ghost mid = texts(candidates@);
            match (&item.source_path, &item.command_path) {
                (Some(s), Some(c)) => {
                    if str_eq(b, "AppImage") && !crate::paths::same_path_exec(s.as_str(), c.as_str())
                        && same_resolved(
                        &resolved_lookup(resolved, s.as_str()),
                        &resolved_lookup(resolved, c.as_str()),
                    ) {
                        candidates.push(c.clone());
                    }
                },
                _ => {},
            }
            assert(texts(candidates@) =~= before + item_targets(*item, pv));
        } else {
            assert(item_targets(*item, pv) =~= Seq::<Seq<char>>::empty());
            assert(texts(candidates@) =~= before + item_targets(*item, pv));
        }
    }
    assert(selected@.take(selected@.len() as int) =~= selected@);
    crate::paths::sort_paths(&candidates)
}

/// The privilege helpers.
pub open spec fn is_helper(name: Seq<char>) -> bool {
    name == "sudo"@ || name == "doas"@ || name == "pkexec"@
}

/// A batch is carried out by deleting its files directly: every item is a
/// selected direct file and the command does not run under a privilege
/// helper.
pub open spec fn direct_batch_spec(batch: Seq<Match>, direct_keys: Seq<Seq<char>>, program: Seq<char>) -> bool {
    (forall|i: int| 0 <= i < batch.len() ==> direct_keys.contains(key_spec(#[trigger] batch[i])))
        && !match crate::util::file_name_spec(program) {
        Some(n) => is_helper(n),
        None => false,
    }
}

/// The keys of the selected files that are removed directly.
pub open spec fn direct_keys_spec(selected: Seq<Match>) -> Seq<Seq<char>> {
    selected.filter(|m: Match| direct_backend(m.backend@)).map_values(|m: Match| key_spec(m))
}

pub fn direct_keys(selected: &Vec<Match>) -> (r: Vec<String>)
    ensures
        texts(r@) == direct_keys_spec(selected@),
{
    let mut out: Vec<String> = Vec::new();
    proof {
        reveal(Seq::filter);
    }
    for i in 0..selected.len()
        invariant
            texts(out@) == selected@.take(i as int).filter(|m: Match| direct_backend(m.backend@)).map_values(
                |m: Match| key_spec(m),
            ),
    {
        proof {
            reveal(Seq::filter);
            assert(selected@.take(i + 1).drop_last() =~= selected@.take(i as int));
            assert(selected@.take(i + 1).last() == selected@[i as int]);
        }
        let b = selected[i].backend.as_str();
        if str_eq(b, "AppImage") || str_eq(b, "Standalone") {
            let ghost before = texts(out@);
            out.push(selected[i].key());
            assert(texts(out@) =~= before.push(key_spec(selected@[i as int])));
            assert(selected@.take(i + 1).filter(|m: Match| direct_backend(m.backend@)).map_values(
                |m: Match| key_spec(m),
            ) =~= before.push(key_spec(selected@[i as int])));
        }
    }
    assert(selected@.take(selected@.len() as int) =~= selected@);
    out
}

pub fn direct_batch(batch: &Vec<Match>, keys: &Vec<String>, program: &str) -> (r: bool)
    ensures
        r == direct_batch_spec(batch@, texts(keys@), program@),
{
    for i in 0..batch.len()
        invariant
            forall|j: int| 0 <= j < i ==> texts(keys@).contains(key_spec(#[trigger] batch@[j])),
    {
        let k = batch[i].key();
        if !listed(keys, k.as_str()) {
            return false;
        }
    }
    match crate::util::file_name(program) {
        Some(n) => {
            let name = string_of(&n);
            let t = name.as_str();
            !(str_eq(t, "sudo") || str_eq(t, "doas") || str_eq(t, "pkexec"))
        },
        None => true,
    }
}

// ---------------------------------------------------------------------------
// When nothing matched
// ---------------------------------------------------------------------------

/// What is said when no result matched: an archive was not removed; the
/// command is part of the rpm-ostree base image (`base`, the owning
/// package, when it is); the command lies in a system directory; or simply
/// nothing was found.  `located` is where the command was found on `PATH`.
pub open spec fn no_match_spec(query: Seq<char>, located: Option<Seq<char>>, base: Seq<char>, home: Seq<char>) -> Seq<Seq<char>> {
    if crate::archive::archive_kinds_spec(query).len() > 0 {
        seq!["No installed package matched this archive. The downloaded archive itself was not removed."@]
    } else {
        match located {
            Some(path) => if trim_spec(base).len() > 0 {
                seq![
                    sanitize_spec(trim_spec(base))
                        + " is part of the rpm-ostree base OS image, not a layered app. It was not offered as a normal removal."@,
                    "Changing the base image requires the advanced 'rpm-ostree override remove' workflow."@,
                ]
            } else if !crate::discovery::safe_standalone_spec(path, home) {
                seq![
                    "The command exists at "@ + sanitize_spec(path)
                        + ", but no supported package manager proved ownership."@,
                    "It was not offered as a standalone file because deleting system-directory commands directly is unsafe."@,
                ]
            } else {
                seq!["No likely installed apps found."@]
            },
            None => seq!["No likely installed apps found."@],
        }
    }
}

pub fn no_match_report(query: &str, located: Option<&str>, base: &str, home: &str) -> (r: Vec<String>)
    ensures
        texts(r@) == no_match_spec(
            query@,
            match located {
                Some(p) => Some(p@),
                None => None,
            },
            base@,
            home@,
        ),
{
    let mut out: Vec<String> = Vec::new();
    if crate::archive::names_archive(query) {
        out.push(owned("No installed package matched this archive. The downloaded archive itself was not removed."));
        assert(texts(out@) =~= seq!["No installed package matched this archive. The downloaded archive itself was not removed."@]);
        return out;
    }
    match located {
        Some(path) => {
            let b = trim_chars(&chars_of(base));
            if b.len() > 0 {
                let mut first = sanitize(string_of(&b).as_str());
                push_str(&mut first, " is part of the rpm-ostree base OS image, not a layered app. It was not offered as a normal removal.");
                out.push(first);
                out.push(owned("Changing the base image requires the advanced 'rpm-ostree override remove' workflow."));
            } else if !crate::discovery::safe_standalone(path, home) {
                let mut first = owned("The command exists at ");
                push_str(&mut first, sanitize(path).as_str());
                push_str(&mut first, ", but no supported package manager proved ownership.");
                out.push(first);
                out.push(owned("It was not offered as a standalone file because deleting system-directory commands directly is unsafe."));
            } else {
                out.push(owned("No likely installed apps found."));
            }
        },
        None => {
            out.push(owned("No likely installed apps found."));
        },
    }
    assert(texts(out@) =~= no_match_spec(
        query@,
        match located {
            Some(p) => Some(p@),
            None => None,
        },
        base@,
        home@,
    ));
    out
}


// ---------------------------------------------------------------------------
// The chosen data
// ---------------------------------------------------------------------------

pub open spec fn present_texts(v: Seq<Option<String>>) -> Seq<Seq<char>>
    decreases v.len(),
{
    if v.len() == 0 {
        Seq::empty()
    } else {
        match v.last() {
            Some(s) => present_texts(v.drop_last()).push(s@),
            None => present_texts(v.drop_last()),
        }
    }
}

pub open spec fn chosen_backends(options: Seq<DataOption>, choices: Seq<usize>) -> Seq<Option<String>> {
    choices.map_values(|c: usize| options[c as int].backend)
}

pub open spec fn chosen_paths(options: Seq<DataOption>, choices: Seq<usize>) -> Seq<Option<String>> {
    choices.map_values(|c: usize| options[c as int].path)
}

fn collect_present(v: &Vec<Option<String>>) -> (r: Vec<String>)
    ensures
        texts(r@) == present_texts(v@),
{
    let mut out: Vec<String> = Vec::new();
    for i in 0..v.len()
        invariant
            texts(out@) == present_texts(v@.take(i as int)),
    {
        assert(v@.take(i + 1).drop_last() =~= v@.take(i as int));
        assert(v@.take(i + 1).last() == v@[i as int]);
        match &v[i] {
            Some(s) => {
                let ghost before = texts(out@);
                out.push(s.clone());
                assert(texts(out@) =~= before.push(s@));
            },
            None => {},
        }
    }
    assert(v@.take(v@.len() as int) =~= v@);
    out
}

/// The managers whose cleanup was chosen (each once, in order) and the
/// chosen data paths (in the order chosen).
pub fn cleanup_choices(options: &Vec<DataOption>, choices: &Vec<usize>) -> (r: (Vec<String>, Vec<String>))
    requires
        forall|i: int| 0 <= i < choices@.len() ==> (#[trigger] choices@[i]) < options@.len(),
    ensures
        crate::sorting::sorted_set_of(present_texts(chosen_backends(options@, choices@)), texts(r.0@)),
        texts(r.1@) == present_texts(chosen_paths(options@, choices@)),
{
    let mut backends: Vec<Option<String>> = Vec::new();
    let mut paths: Vec<Option<String>> = Vec::new();
    for i in 0..choices.len()
        invariant
            forall|k: int| 0 <= k < choices@.len() ==> (#[trigger] choices@[k]) < options@.len(),
            backends@ == chosen_backends(options@, choices@).take(i as int),
            paths@ == chosen_paths(options@, choices@).take(i as int),
    {
        let c = choices[i];
        backends.push(crate::model::copy_opt(&options[c].backend));
        paths.push(crate::model::copy_opt(&options[c].path));
        assert(backends@ =~= chosen_backends(options@, choices@).take(i + 1));
        assert(paths@ =~= chosen_paths(options@, choices@).take(i + 1));
    }
    assert(chosen_backends(options@, choices@).take(choices@.len() as int) =~= chosen_backends(options@, choices@));
    assert(chosen_paths(options@, choices@).take(choices@.len() as int) =~= chosen_paths(options@, choices@));
    let names = collect_present(&backends);
    (crate::sorting::sort_unique(&names), collect_present(&paths))
}

/// Removal is never automatic: pressing Enter (an empty answer) does not
/// confirm, a high- or unknown-impact plan (or data outside the home
/// directory) always asks for a typed phrase, and that phrase is never
/// empty, so an empty answer never matches it.
pub proof fn enter_never_confirms(impact: Impact, selected: Seq<Match>, outside: bool)
    ensures
        !affirmative_spec(Seq::empty()),
        (impact == Impact::High || impact == Impact::Unknown || outside) ==> confirmation_spec(
            impact,
            selected,
            outside,
        ) is Some,
        confirmation_spec(impact, selected, outside) matches Some((e, _)) ==> e.len() > 0
            && e != Seq::<char>::empty(),
{
    reveal_strlit("y");
    reveal_strlit("yes");
    reveal_strlit("REMOVE ");
    reveal_strlit("REMOVE ALL");
    let t = trim_spec(Seq::<char>::empty());
    assert(t =~= Seq::<char>::empty()) by {
        crate::text::lemma_trim_start_index(Seq::<char>::empty());
    }
    assert(ascii_lower_seq(t) =~= Seq::<char>::empty());
    assert("y"@.len() == 1);
    assert("yes"@.len() == 3);
}

} // verus!
