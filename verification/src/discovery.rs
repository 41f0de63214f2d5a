//! Matching a query against what is installed: the query matcher, the
//! parsers of package listings, and how results are merged, narrowed and
//! ranked.
use crate::lines::{lines_of, lines_spec};
use crate::matching::{capture_pair, regex_pair};
use crate::model::{key_spec, Match, Role};
use crate::paths::{same_path, same_path_exec};
use crate::provenance::{parse_key_records, records_view, key_records_spec, KeyRecord};
use crate::sorting::{lemma_sort_dedup, sort_dedup, sorted_distinct, sorted_set_of};
use crate::text::{
    chars_eq, chars_lt, chars_of, lemma_chars_lt_irreflexive_asymmetric, lemma_chars_lt_total, lemma_chars_lt_transitive, compare_chars, find_char, first_index, is_numeric,
    lemma_first_index, owned, slice_chars, starts_with_chars, str_eq, string_of, trim_chars,
    trim_spec, unicode_numeric,
};
use crate::model::texts;
use crate::util::{
    deep, file_name, file_name_spec, norm, norm_spec, path_within, path_within_spec, relevant,
    relevant_spec, views,
};
use vstd::prelude::*;

verus! {

// ---------------------------------------------------------------------------
// The query
// ---------------------------------------------------------------------------

/// A query as the detectors compare it.
pub struct QueryMatcher {
    query: String,
    needle: String,
}

/// A value names exactly what was asked for: its normal form is the
/// query's, which is not empty.
pub open spec fn exact_spec(query: Seq<char>, value: Seq<char>) -> bool {
    norm_spec(query).len() > 0 && norm_spec(value) == norm_spec(query)
}

impl QueryMatcher {
    #[verifier::type_invariant]
    spec fn well_formed(self) -> bool {
        self.needle@ == norm_spec(self.query@)
    }

    /// The query that was asked.
    pub closed spec fn query_view(self) -> Seq<char> {
        self.query@
    }

    pub fn new(query: &str) -> (r: QueryMatcher)
        ensures
            r.query_view() == query@,
    {
        QueryMatcher { query: owned(query), needle: norm(query) }
    }

    /// The query's normal form.
    pub fn normalized(&self) -> (r: &str)
        ensures
            r@ == norm_spec(self.query_view()),
    {
        proof {
            use_type_invariant(self);
        }
        self.needle.as_str()
    }

    /// Whether a value names exactly what was asked for.
    pub fn exact(&self, value: &str) -> (r: bool)
        ensures
            r == exact_spec(self.query_view(), value@),
    {
        proof {
            use_type_invariant(self);
        }
        if self.needle.as_str().is_empty() {
            return false;
        }
        let v = norm(value);
        str_eq(v.as_str(), self.needle.as_str())
    }

    /// Whether any of the values is a plausible match (see `relevant`).
    pub fn relevant(&self, values: &[&str]) -> (r: bool)
        ensures
            r == relevant_spec(self.query_view(), views(values@)),
    {
        relevant(self.query.as_str(), values)
    }
}

/// Whether a match's id or name is exactly the query.
pub open spec fn exact_match_spec(item: Match, query: Seq<char>) -> bool {
    exact_spec(query, item.id@) || exact_spec(query, item.name@)
}

pub fn exact_match(item: &Match, matcher: &QueryMatcher) -> (r: bool)
    ensures
        r == exact_match_spec(*item, matcher.query_view()),
{
    matcher.exact(item.id.as_str()) || matcher.exact(item.name.as_str())
}

/// The normalised file name of an item's command, or nothing.
pub open spec fn command_name(item: Match) -> Seq<char> {
    match item.command_path {
        Some(p) => match file_name_spec(p@) {
            Some(n) => norm_spec(n),
            None => Seq::empty(),
        },
        None => Seq::empty(),
    }
}

/// The length in bytes of a text in UTF-8, as `str::len` gives it.
pub open spec fn utf8_len(s: Seq<char>) -> int {
    (vstd::utf8::encode_utf8(s).len() as usize) as int
}

/// The rank of a result: its command is the query, then its id or name
/// is, then one starts with it, then the rest; ties go to the shorter
/// normalised name or id, then to the name in text order.
pub open spec fn score_spec(item: Match, query: Seq<char>) -> (int, int, Seq<char>) {
    let needle = norm_spec(query);
    let id = norm_spec(item.id@);
    let name = norm_spec(item.name@);
    let tier = if command_name(item) == needle {
        0
    } else if id == needle || name == needle {
        1
    } else if needle.is_prefix_of(id) || needle.is_prefix_of(name) {
        2
    } else {
        3
    };
    (tier, if utf8_len(name) < utf8_len(id) {
        utf8_len(name)
    } else {
        utf8_len(id)
    }, name)
}

/// The order of ranks.
pub open spec fn score_lt(a: (int, int, Seq<char>), b: (int, int, Seq<char>)) -> bool {
    a.0 < b.0 || (a.0 == b.0 && (a.1 < b.1 || (a.1 == b.1 && chars_lt(a.2, b.2))))
}

fn command_name_of(item: &Match) -> (r: String)
    ensures
        r@ == command_name(*item),
{
    match &item.command_path {
        Some(p) => match file_name(p.as_str()) {
            Some(n) => {
                let text = string_of(&n);
                norm(text.as_str())
            },
            None => String::new(),
        },
        None => String::new(),
    }
}

/// The rank of a result for a query.
pub fn score(item: &Match, matcher: &QueryMatcher) -> (r: (u8, usize, String))
    ensures
        (r.0 as int, r.1 as int, r.2@) == score_spec(*item, matcher.query_view()),
{
    let needle = matcher.normalized();
    let nc = chars_of(needle);
    let id = norm(item.id.as_str());
    let name = norm(item.name.as_str());
    let command = command_name_of(item);
    let tier: u8 = if str_eq(command.as_str(), needle) {
        0
    } else if str_eq(id.as_str(), needle) || str_eq(name.as_str(), needle) {
        1
    } else if starts_with_chars(&chars_of(id.as_str()), &nc) || starts_with_chars(
        &chars_of(name.as_str()),
        &nc,
    ) {
        2
    } else {
        3
    };
    let name_len = name.as_str().len();
    let id_len = id.as_str().len();
    let shortest = if name_len < id_len {
        name_len
    } else {
        id_len
    };
    (tier, shortest, name)
}

fn score_less(a: &(u8, usize, String), b: &(u8, usize, String)) -> (r: bool)
    ensures
        r == score_lt((a.0 as int, a.1 as int, a.2@), (b.0 as int, b.1 as int, b.2@)),
{
    if a.0 != b.0 {
        return a.0 < b.0;
    }
    if a.1 != b.1 {
        return a.1 < b.1;
    }
    let x = chars_of(a.2.as_str());
    let y = chars_of(b.2.as_str());
    let c = compare_chars(&x, &y);
    proof {
        lemma_chars_lt_irreflexive_asymmetric(x@, y@);
        lemma_chars_lt_irreflexive_asymmetric(y@, x@);
    }
    c < 0
}

// ---------------------------------------------------------------------------
// Hiding dependencies
// ---------------------------------------------------------------------------

/// A fuzzy dependency: a library or dependency without a command that
/// does not name the query exactly.
pub open spec fn hidden_spec(item: Match, query: Seq<char>) -> bool {
    item.role.is_dependency_spec() && item.command_path is None && !exact_match_spec(item, query)
}

pub open spec fn keep_visible(items: Seq<Match>, query: Seq<char>) -> Seq<Match>
    decreases items.len(),
{
    if items.len() == 0 {
        items
    } else if hidden_spec(items.last(), query) {
        keep_visible(items.drop_last(), query)
    } else {
        keep_visible(items.drop_last(), query).push(items.last())
    }
}

pub open spec fn keep_hidden(items: Seq<Match>, query: Seq<char>) -> Seq<Match>
    decreases items.len(),
{
    if items.len() == 0 {
        items
    } else if hidden_spec(items.last(), query) {
        keep_hidden(items.drop_last(), query).push(items.last())
    } else {
        keep_hidden(items.drop_last(), query)
    }
}

/// What is shown and how many fuzzy dependencies were hidden: all of them
/// when asked; otherwise the others, unless nothing else is left, in which
/// case the dependencies are shown after all.
pub open spec fn filter_spec(items: Seq<Match>, query: Seq<char>, show: bool) -> (Seq<Match>, int) {
    if show {
        (items, 0)
    } else {
        let visible = keep_visible(items, query);
        let hidden = keep_hidden(items, query);
        if visible.len() == 0 {
            (hidden, 0)
        } else {
            (visible, hidden.len() as int)
        }
    }
}

proof fn lemma_partition(items: Seq<Match>, query: Seq<char>)
    ensures
        keep_visible(items, query).len() + keep_hidden(items, query).len() == items.len(),
        forall|i: int|
            0 <= i < items.len() && !hidden_spec(items[i], query) ==> keep_visible(
                items,
                query,
            ).contains(#[trigger] items[i]),
    decreases items.len(),
{
    if items.len() > 0 {
        let d = items.drop_last();
        lemma_partition(d, query);
        assert forall|i: int|
            0 <= i < items.len() && !hidden_spec(items[i], query) implies keep_visible(
                items,
                query,
            ).contains(#[trigger] items[i]) by {
            let kv = keep_visible(items, query);
            if i < items.len() - 1 {
                assert(d[i] == items[i]);
                assert(keep_visible(d, query).contains(d[i]));
                let t = choose|t: int|
                    0 <= t < keep_visible(d, query).len() && keep_visible(d, query)[t] == d[i];
                if hidden_spec(items.last(), query) {
                    assert(kv[t] == items[i]);
                } else {
                    assert(kv[t] == items[i]);
                }
            } else {
                assert(kv[kv.len() - 1] == items[i]);
            }
        }
    }
}

/// Hides fuzzy dependency matches unless asked to show them or nothing
/// else would remain; returns what is shown and how many were hidden.
pub fn filter_dependencies(matches: Vec<Match>, query: &str, show: bool) -> (r: (Vec<Match>, usize))
    ensures
        (r.0@, r.1 as int) == filter_spec(matches@, query@, show),
        r.0@.len() + r.1 == matches@.len(),
        forall|i: int|
            0 <= i < matches@.len() && exact_match_spec(matches@[i], query@) ==> r.0@.contains(
                #[trigger] matches@[i],
            ),
{
    proof {
        lemma_partition(matches@, query@);
    }
    if show {
        return (matches, 0);
    }
    let matcher = QueryMatcher::new(query);
    let mut visible: Vec<Match> = Vec::new();
    let mut hidden: Vec<Match> = Vec::new();
    let ghost all = matches@;
    let n = matches.len();
    assert(all.take(0) =~= Seq::<Match>::empty());
    for i in 0..n
        invariant
            n == all.len(),
            all == matches@,
            matcher.query_view() == query@,
            visible@ == keep_visible(all.take(i as int), query@),
            hidden@ == keep_hidden(all.take(i as int), query@),
    {
        let item = &matches[i];
        proof {
            assert(all.take(i + 1).drop_last() =~= all.take(i as int));
            assert(all.take(i + 1).last() == all[i as int]);
        }
        if item.role.is_dependency() && item.command_path.is_none() && !exact_match(
            item,
            &matcher,
        ) {
            hidden.push(item.duplicate());
        } else {
            visible.push(item.duplicate());
        }
    }
    assert(all.take(n as int) =~= all);
    proof {
        assert forall|i: int|
            0 <= i < all.len() && exact_match_spec(all[i], query@) implies keep_hidden(
                all,
                query@,
            ).len() == 0 || keep_visible(all, query@).contains(#[trigger] all[i]) by {
            assert(!hidden_spec(all[i], query@));
        }
    }
    if visible.len() == 0 {
        proof {
            assert forall|i: int|
                0 <= i < all.len() && exact_match_spec(all[i], query@) implies hidden@.contains(
                #[trigger] all[i],
            ) by {
                assert(keep_visible(all, query@).contains(all[i]));
            }
        }
        (hidden, 0)
    } else {
        let count = hidden.len();
        (visible, count)
    }
}


// ---------------------------------------------------------------------------
// Names and versions
// ---------------------------------------------------------------------------

/// The two groups that `pattern` captures in `text`, or the whole text and
/// no version when it does not match.
pub open spec fn split_by(pattern: Seq<char>, text: Seq<char>) -> (Seq<char>, Seq<char>) {
    match regex_pair(pattern, text) {
        Some(p) => p,
        None => (text, Seq::empty()),
    }
}

/// XBPS's `name-version_revision`, read from the trimmed value.
pub open spec fn xbps_split_spec(value: Seq<char>) -> (Seq<char>, Seq<char>) {
    split_by("^(.+)-([0-9][^\\s]*_\\d+)$"@, trim_spec(value))
}

/// `name-version`, where the version starts with a digit.
pub open spec fn name_version_spec(value: Seq<char>) -> (Seq<char>, Seq<char>) {
    split_by("^(.+)-([0-9][^\\s]*)$"@, value)
}

/// Splits an XBPS package string into its name and version.
pub fn split_xbps(value: &str) -> (r: (String, String))
    ensures
        (r.0@, r.1@) == xbps_split_spec(value@),
{
    let t = string_of(&trim_chars(&chars_of(value)));
    match capture_pair("^(.+)-([0-9][^\\s]*_\\d+)$", t.as_str()) {
        Some(found) => found,
        None => (t, String::new()),
    }
}

/// Splits `name-version` into its name and version.
pub fn split_name_version(value: &str) -> (r: (String, String))
    ensures
        (r.0@, r.1@) == name_version_spec(value@),
{
    match capture_pair("^(.+)-([0-9][^\\s]*)$", value) {
        Some(found) => found,
        None => (owned(value), String::new()),
    }
}

// ---------------------------------------------------------------------------
// The Portage world file
// ---------------------------------------------------------------------------

/// The version operators that may start an atom.
pub open spec fn is_atom_operator(c: char) -> bool {
    c == '<' || c == '>' || c == '=' || c == '~' || c == '!'
}

/// An atom without its leading version operators.
pub open spec fn strip_operators(s: Seq<char>) -> Seq<char>
    decreases s.len(),
{
    if s.len() > 0 && is_atom_operator(s[0]) {
        strip_operators(s.drop_first())
    } else {
        s
    }
}

/// An atom up to its slot (`:`) or USE flags (`[`).
pub open spec fn before_slot(s: Seq<char>) -> Seq<char>
    decreases s.len(),
{
    if s.len() == 0 || s[0] == '[' || s[0] == ':' {
        Seq::empty()
    } else {
        seq![s[0]] + before_slot(s.drop_first())
    }
}

/// The package a world-file line names, if it names one: not blank, not a
/// comment, not a set.
pub open spec fn world_atom(line: Seq<char>) -> Option<Seq<char>> {
    let t = trim_spec(line);
    if t.len() == 0 || t[0] == '#' || t[0] == '@' {
        None
    } else {
        Some(before_slot(strip_operators(t)))
    }
}

/// An atom names a package: it is the package, or the package followed by
/// `-` and a version that starts with a numeric character.
pub open spec fn atom_names(atom: Seq<char>, id: Seq<char>) -> bool {
    atom == id || (id.is_prefix_of(atom) && atom.len() >= id.len() + 2 && atom[id.len() as int]
        == '-' && unicode_numeric(atom[id.len() + 1int]))
}

pub open spec fn world_line_names(line: Seq<char>, id: Seq<char>) -> bool {
    match world_atom(line) {
        Some(atom) => atom_names(atom, id),
        None => false,
    }
}

pub open spec fn world_contains_spec(world: Seq<char>, id: Seq<char>) -> bool {
    exists|i: int|
        0 <= i < lines_spec(world).len() && world_line_names(#[trigger] lines_spec(world)[i], id)
}

fn strip_operators_of(s: &Vec<char>) -> (r: Vec<char>)
    ensures
        r@ == strip_operators(s@),
{
    let mut i: usize = 0;
    assert(s@.skip(0) =~= s@);
    while i < s.len() && (s[i] == '<' || s[i] == '>' || s[i] == '=' || s[i] == '~' || s[i]
        == '!')
        invariant
            i <= s@.len(),
            strip_operators(s@) == strip_operators(s@.skip(i as int)),
        decreases s@.len() - i,
    {
        assert(s@.skip(i as int).drop_first() =~= s@.skip(i + 1));
        i = i + 1;
    }
    assert(s@.skip(i as int).len() > 0 ==> s@.skip(i as int)[0] == s@[i as int]);
    slice_chars(s, i, s.len())
}

fn before_slot_of(s: &Vec<char>) -> (r: Vec<char>)
    ensures
        r@ == before_slot(s@),
{
    let mut out: Vec<char> = Vec::new();
    let mut i: usize = 0;
    assert(s@.skip(0) =~= s@);
    while i < s.len() && s[i] != '[' && s[i] != ':'
        invariant
            i <= s@.len(),
            out@ == s@.take(i as int),
            before_slot(s@) == out@ + before_slot(s@.skip(i as int)),
        decreases s@.len() - i,
    {
        let ghost rest = s@.skip(i as int);
        assert(rest.drop_first() =~= s@.skip(i + 1));
        assert(rest[0] == s@[i as int]);
        out.push(s[i]);
        assert(out@ =~= s@.take(i + 1));
        assert(before_slot(s@) =~= out@ + before_slot(s@.skip(i + 1)));
        i = i + 1;
    }
    assert(before_slot(s@.skip(i as int)) =~= Seq::<char>::empty());
    out
}

fn atom_names_exec(atom: &Vec<char>, id: &Vec<char>) -> (r: bool)
    ensures
        r == atom_names(atom@, id@),
{
    if chars_eq(atom, id) {
        return true;
    }
    if !starts_with_chars(atom, id) || atom.len() - id.len() < 2 {
        return false;
    }
    atom[id.len()] == '-' && is_numeric(atom[id.len() + 1])
}

/// Whether the Portage world file lists the package `id` (a
/// `category/name`), with or without a version, slot or USE flags.
pub fn portage_world_contains(world: &str, id: &str) -> (r: bool)
    ensures
        r == world_contains_spec(world@, id@),
{
    let lines = lines_of(&chars_of(world));
    let wanted = chars_of(id);
    let ghost ls = lines_spec(world@);
    for i in 0..lines.len()
        invariant
            deep(lines@) == ls,
            ls == lines_spec(world@),
            wanted@ == id@,
            forall|j: int| 0 <= j < i ==> !world_line_names(#[trigger] ls[j], id@),
    {
        let line = &lines[i];
        assert(ls[i as int] == line@);
        let t = trim_chars(line);
        if t.len() > 0 && t[0] != '#' && t[0] != '@' {
            let atom = before_slot_of(&strip_operators_of(&t));
            if atom_names_exec(&atom, &wanted) {
                return true;
            }
        }
    }
    false
}

// ---------------------------------------------------------------------------
// Files
// ---------------------------------------------------------------------------

/// The first bytes of an AppImage: an ELF header whose padding holds the
/// `AI` magic and the AppImage type 1 or 2.
pub open spec fn appimage_header(header: Seq<u8>) -> bool {
    header.len() >= 11 && header[0] == 0x7f && header[1] == 0x45 && header[2] == 0x4c
        && header[3] == 0x46 && header[8] == 0x41 && header[9] == 0x49 && (header[10] == 1
        || header[10] == 2)
}

/// Whether the first bytes of a file mark it as an AppImage.
pub fn appimage_signature(header: &[u8]) -> (r: bool)
    ensures
        r == appimage_header(header@),
{
    header.len() >= 11 && header[0] == 0x7f && header[1] == 0x45 && header[2] == 0x4c
        && header[3] == 0x46 && header[8] == 0x41 && header[9] == 0x49 && (header[10] == 1
        || header[10] == 2)
}

/// Where a file may be removed directly: in the home directory, under
/// `/usr/local` or under `/opt`.
pub open spec fn safe_standalone_spec(path: Seq<char>, home: Seq<char>) -> bool {
    path_within_spec(path, home) || path_within_spec(path, "/usr/local"@) || path_within_spec(
        path,
        "/opt"@,
    )
}

pub fn safe_standalone(path: &str, home: &str) -> (r: bool)
    ensures
        r == safe_standalone_spec(path@, home@),
{
    path_within(path, home) || path_within(path, "/usr/local") || path_within(path, "/opt")
}


// ---------------------------------------------------------------------------
// Merging results
// ---------------------------------------------------------------------------

pub open spec fn match_keys(items: Seq<Match>) -> Seq<Seq<char>> {
    items.map_values(|m: Match| key_spec(m))
}

/// The position of the first item with key `k`, or the length.
pub open spec fn first_with_key(items: Seq<Match>, k: Seq<char>) -> int
    decreases items.len(),
{
    if items.len() == 0 {
        0
    } else if key_spec(items[0]) == k {
        0
    } else {
        1 + first_with_key(items.drop_first(), k)
    }
}

proof fn lemma_first_with_key(items: Seq<Match>, k: Seq<char>, j: int)
    requires
        0 <= j <= items.len(),
        forall|q: int| 0 <= q < j ==> key_spec(#[trigger] items[q]) != k,
        j == items.len() || key_spec(items[j]) == k,
    ensures
        first_with_key(items, k) == j,
    decreases j,
{
    if j > 0 {
        let d = items.drop_first();
        assert forall|q: int| 0 <= q < j - 1 implies key_spec(#[trigger] d[q]) != k by {
            assert(d[q] == items[q + 1]);
        }
        if j < items.len() {
            assert(d[j - 1] == items[j]);
        }
        assert(key_spec(items[0]) != k);
        lemma_first_with_key(d, k, j - 1);
    }
}

/// One result per installation, in key order; where detectors reported
/// the same installation more than once, the first report is kept.
pub open spec fn unique_spec(items: Seq<Match>) -> Seq<Match> {
    let ks = sort_dedup(match_keys(items));
    Seq::new(ks.len(), |t: int| items[first_with_key(items, ks[t])])
}

/// Some result is the installation with key `k`.
pub open spec fn key_listed(r: Seq<Match>, k: Seq<char>) -> bool {
    exists|j: int| 0 <= j < r.len() && key_spec(#[trigger] r[j]) == k
}

/// Merges what the detectors found into one result per installation.
pub fn unique_matches(items: &Vec<Match>) -> (r: Vec<Match>)
    ensures
        r@ == unique_spec(items@),
        forall|i: int, j: int|
            0 <= i < j < r@.len() ==> key_spec(#[trigger] r@[i]) != key_spec(#[trigger] r@[j]),
        forall|i: int| 0 <= i < items@.len() ==> key_listed(r@, key_spec(#[trigger] items@[i])),
{
    let n = items.len();
    let mut keys: Vec<Vec<char>> = Vec::new();
    for i in 0..n
        invariant
            n == items@.len(),
            keys@.len() == i,
            forall|j: int| 0 <= j < i ==> #[trigger] keys@[j]@ == key_spec(items@[j]),
    {
        let k = items[i].key();
        keys.push(chars_of(k.as_str()));
    }
    let ks = sorted_distinct(&keys);
    let ghost mk = match_keys(items@);
    proof {
        assert forall|k: Seq<char>| deep(ks@).contains(k) <==> mk.contains(k) by {
            if mk.contains(k) {
                let j = choose|j: int| 0 <= j < mk.len() && mk[j] == k;
                assert(keys@[j]@ == k);
            }
            if deep(ks@).contains(k) {
                let i = choose|i: int| 0 <= i < keys@.len() && #[trigger] keys@[i]@ == k;
                assert(mk[i] == k);
            }
        }
        lemma_sort_dedup(mk, deep(ks@));
    }
    let ghost target = unique_spec(items@);
    let mut out: Vec<Match> = Vec::new();
    for t in 0..ks.len()
        invariant
            n == items@.len(),
            keys@.len() == n,
            forall|j: int| 0 <= j < n ==> #[trigger] keys@[j]@ == key_spec(items@[j]),
            mk == match_keys(items@),
            deep(ks@) == sort_dedup(mk),
            forall|k: Seq<char>| deep(ks@).contains(k) ==> mk.contains(k),
            forall|k: Seq<char>| mk.contains(k) ==> deep(ks@).contains(k),
            target == unique_spec(items@),
            out@ == target.take(t as int),
            forall|q: int| 0 <= q < t ==> key_spec(#[trigger] out@[q]) == deep(ks@)[q],
    {
        let k = &ks[t];
        let ghost kv = k@;
        assert(deep(ks@)[t as int] == kv);
        assert(deep(ks@).contains(kv));
        assert(mk.contains(kv));
        let mut j: usize = 0;
        while j < n && !chars_eq(&keys[j], k)
            invariant
                j <= n,
                n == items@.len(),
                keys@.len() == n,
                kv == k@,
                forall|q: int| 0 <= q < n ==> #[trigger] keys@[q]@ == key_spec(items@[q]),
                forall|q: int| 0 <= q < j ==> key_spec(#[trigger] items@[q]) != kv,
            decreases n - j,
        {
            j = j + 1;
        }
        if j == n {
            proof {
                let q = choose|q: int| 0 <= q < mk.len() && mk[q] == kv;
                assert(mk[q] == key_spec(items@[q]));
                assert(false);
            }
        }
        proof {
            lemma_first_with_key(items@, kv, j as int);
        }
        let ghost before = out@;
        out.push(items[j].duplicate());
        assert(out@ =~= target.take(t + 1));
        assert forall|q: int| 0 <= q < t + 1 implies key_spec(#[trigger] out@[q]) == deep(ks@)[q] by {
            if q < t {
                assert(out@[q] == before[q]);
            }
        }
    }
    assert(target.take(ks@.len() as int) =~= target);
    proof {
        let kd = deep(ks@);
        assert forall|i: int, j: int| 0 <= i < j < out@.len() implies key_spec(#[trigger] out@[i])
            != key_spec(#[trigger] out@[j]) by {
            crate::text::lemma_chars_lt_irreflexive_asymmetric(kd[i], kd[j]);
        }
        assert forall|i: int| 0 <= i < items@.len() implies key_listed(out@, key_spec(#[trigger] items@[i])) by {
            assert(mk[i] == key_spec(items@[i]));
            assert(mk.contains(key_spec(items@[i])));
            assert(kd.contains(key_spec(items@[i])));
            let j = choose|j: int| 0 <= j < kd.len() && kd[j] == key_spec(items@[i]);
            assert(key_spec(out@[j]) == key_spec(items@[i]));
        }
    }
    out
}


// ---------------------------------------------------------------------------
// Narrowing results
// ---------------------------------------------------------------------------

pub open spec fn pairs_view(v: Seq<(String, String)>) -> Seq<(Seq<char>, Seq<char>)> {
    v.map_values(|q: (String, String)| (q.0@, q.1@))
}

/// The resolved form of a path as the caller found it: the first pair for
/// the path, or the path itself.
pub open spec fn canonical_of(pairs: Seq<(Seq<char>, Seq<char>)>, p: Seq<char>) -> Seq<char>
    decreases pairs.len(),
{
    if pairs.len() == 0 {
        p
    } else if pairs[0].0 == p {
        pairs[0].1
    } else {
        canonical_of(pairs.drop_first(), p)
    }
}

/// Whether a path is among `paths`, component by component.
pub open spec fn path_in(paths: Seq<Seq<char>>, p: Seq<char>) -> bool {
    exists|i: int| 0 <= i < paths.len() && same_path(#[trigger] paths[i], p)
}

fn canonical_of_exec(pairs: &Vec<(String, String)>, p: &str) -> (r: String)
    ensures
        r@ == canonical_of(pairs_view(pairs@), p@),
{
    let ghost pv = pairs_view(pairs@);
    let mut i: usize = 0;
    assert(pv.skip(0) =~= pv);
    while i < pairs.len()
        invariant
            i <= pairs@.len(),
            pv == pairs_view(pairs@),
            canonical_of(pv, p@) == canonical_of(pv.skip(i as int), p@),
        decreases pairs@.len() - i,
    {
        assert(pv.skip(i as int)[0] == (pairs@[i as int].0@, pairs@[i as int].1@));
        if str_eq(pairs[i].0.as_str(), p) {
            return pairs[i].1.clone();
        }
        assert(pv.skip(i as int).drop_first() =~= pv.skip(i + 1));
        i = i + 1;
    }
    assert(pv.skip(i as int).len() == 0);
    owned(p)
}

fn path_in_exec(paths: &Vec<String>, p: &str) -> (r: bool)
    ensures
        r == path_in(texts(paths@), p@),
{
    for i in 0..paths.len()
        invariant
            forall|j: int| 0 <= j < i ==> !same_path(#[trigger] texts(paths@)[j], p@),
    {
        assert(texts(paths@)[i as int] == paths@[i as int]@);
        if same_path_exec(paths[i].as_str(), p) {
            return true;
        }
    }
    false
}

/// A Gear Lever result that names the file it manages.
pub open spec fn is_gear_source(m: Match) -> bool {
    m.backend@ == "Gear Lever"@ && m.source_path is Some
}

pub open spec fn gear_pred() -> spec_fn(Match) -> bool {
    |m: Match| is_gear_source(m)
}

pub open spec fn resolved_source(pairs: Seq<(Seq<char>, Seq<char>)>) -> spec_fn(Match) -> Seq<char> {
    |m: Match| canonical_of(pairs, m.source_path.unwrap()@)
}

/// The files that Gear Lever manages, resolved.
pub open spec fn gear_paths(items: Seq<Match>, pairs: Seq<(Seq<char>, Seq<char>)>) -> Seq<Seq<char>> {
    items.filter(gear_pred()).map_values(resolved_source(pairs))
}

/// An AppImage result is dropped when Gear Lever manages its file.
pub open spec fn beside_gear(gear: Seq<Seq<char>>, pairs: Seq<(Seq<char>, Seq<char>)>) -> spec_fn(
    Match,
) -> bool {
    |m: Match|
        !(m.backend@ == "AppImage"@) || m.source_path is None || !path_in(
            gear,
            canonical_of(pairs, m.source_path.unwrap()@),
        )
}

pub open spec fn without_managed_appimages(items: Seq<Match>, pairs: Seq<(Seq<char>, Seq<char>)>) -> Seq<Match> {
    let gear = gear_paths(items, pairs);
    if gear.len() > 0 {
        items.filter(beside_gear(gear, pairs))
    } else {
        items
    }
}

/// The file name of a result's command is exactly the query.
pub open spec fn command_is_query(m: Match, query: Seq<char>) -> bool {
    match m.command_path {
        Some(p) => match file_name_spec(p@) {
            Some(n) => exact_spec(query, n),
            None => false,
        },
        None => false,
    }
}

pub open spec fn exact_pred(query: Seq<char>) -> spec_fn(Match) -> bool {
    |m: Match| exact_match_spec(m, query) || command_is_query(m, query)
}

/// When a command is exactly the query, only exact results stay.
pub open spec fn exact_when_command(items: Seq<Match>, query: Seq<char>) -> Seq<Match> {
    if exists|i: int| 0 <= i < items.len() && command_is_query(#[trigger] items[i], query) {
        items.filter(exact_pred(query))
    } else {
        items
    }
}

pub open spec fn managed_pred() -> spec_fn(Match) -> bool {
    |m: Match| m.command_path is Some && !(m.backend@ == "Standalone"@)
}

pub open spec fn command_of() -> spec_fn(Match) -> Seq<char> {
    |m: Match| m.command_path.unwrap()@
}

/// The commands that a package manager provides.
pub open spec fn managed_commands(items: Seq<Match>) -> Seq<Seq<char>> {
    items.filter(managed_pred()).map_values(command_of())
}

/// Once some result provides a command, a standalone file that a manager
/// provides is dropped, and so is a result without a command that is not
/// exactly the query.
pub open spec fn beside_commands(managed: Seq<Seq<char>>, query: Seq<char>) -> spec_fn(Match) -> bool {
    |m: Match|
        !(m.backend@ == "Standalone"@ && m.command_path is Some && path_in(
            managed,
            m.command_path.unwrap()@,
        )) && (m.command_path is Some || exact_match_spec(m, query))
}

pub open spec fn commands_first(items: Seq<Match>, query: Seq<char>) -> Seq<Match> {
    if exists|i: int| 0 <= i < items.len() && (#[trigger] items[i]).command_path is Some {
        items.filter(beside_commands(managed_commands(items), query))
    } else {
        items
    }
}

/// The results that are offered, before ranking.
pub open spec fn narrowed_spec(
    items: Seq<Match>,
    pairs: Seq<(Seq<char>, Seq<char>)>,
    query: Seq<char>,
) -> Seq<Match> {
    commands_first(exact_when_command(without_managed_appimages(items, pairs), query), query)
}

/// One more element of a prefix passes the filter or does not.
proof fn lemma_filter_step(s: Seq<Match>, pred: spec_fn(Match) -> bool, i: int)
    requires
        0 <= i < s.len(),
    ensures
        s.take(i + 1).filter(pred) == (if pred(s[i]) {
            s.take(i).filter(pred).push(s[i])
        } else {
            s.take(i).filter(pred)
        }),
{
    reveal(Seq::filter);
    assert(s.take(i + 1).drop_last() =~= s.take(i));
    assert(s.take(i + 1).last() == s[i]);
}

fn drop_managed_appimages(items: Vec<Match>, pairs: &Vec<(String, String)>) -> (r: Vec<Match>)
    ensures
        r@ == without_managed_appimages(items@, pairs_view(pairs@)),
{
    let ghost pv = pairs_view(pairs@);
    let ghost all = items@;
    let n = items.len();
    let mut gear: Vec<String> = Vec::new();
    assert(all.take(0) =~= Seq::<Match>::empty());
    for i in 0..n
        invariant
            n == all.len(),
            all == items@,
            pv == pairs_view(pairs@),
            texts(gear@) == all.take(i as int).filter(gear_pred()).map_values(resolved_source(pv)),
    {
        let ghost before = texts(gear@);
        proof {
            lemma_filter_step(all, gear_pred(), i as int);
        }
        let item = &items[i];
        if str_eq(item.backend.as_str(), "Gear Lever") {
            match &item.source_path {
                Some(source) => {
                    let c = canonical_of_exec(pairs, source.as_str());
                    gear.push(c);
                    assert(texts(gear@) =~= before.push(resolved_source(pv)(all[i as int])));
                    assert(all.take(i + 1).filter(gear_pred()).map_values(resolved_source(pv))
                        =~= before.push(resolved_source(pv)(all[i as int])));
                },
                None => {},
            }
        }
    }
    assert(all.take(n as int) =~= all);
    if gear.len() == 0 {
        return items;
    }
    let ghost gv = texts(gear@);
    let mut out: Vec<Match> = Vec::new();
    for i in 0..n
        invariant
            n == all.len(),
            all == items@,
            pv == pairs_view(pairs@),
            gv == texts(gear@),
            out@ == all.take(i as int).filter(beside_gear(gv, pv)),
    {
        proof {
            lemma_filter_step(all, beside_gear(gv, pv), i as int);
        }
        let item = &items[i];
        let keep = if !str_eq(item.backend.as_str(), "AppImage") {
            true
        } else {
            match &item.source_path {
                None => true,
                Some(source) => {
                    let c = canonical_of_exec(pairs, source.as_str());
                    !path_in_exec(&gear, c.as_str())
                },
            }
        };
        if keep {
            out.push(item.duplicate());
        }
    }
    assert(all.take(n as int) =~= all);
    out
}

fn command_matches_query(item: &Match, matcher: &QueryMatcher) -> (r: bool)
    ensures
        r == command_is_query(*item, matcher.query_view()),
{
    match &item.command_path {
        Some(p) => match file_name(p.as_str()) {
            Some(n) => {
                let text = string_of(&n);
                matcher.exact(text.as_str())
            },
            None => false,
        },
        None => false,
    }
}

fn keep_exact_when_command(items: Vec<Match>, matcher: &QueryMatcher) -> (r: Vec<Match>)
    ensures
        r@ == exact_when_command(items@, matcher.query_view()),
{
    let ghost q = matcher.query_view();
    let ghost all = items@;
    let n = items.len();
    let mut found = false;
    for i in 0..n
        invariant
            n == all.len(),
            all == items@,
            q == matcher.query_view(),
            found <==> exists|j: int| 0 <= j < i && command_is_query(#[trigger] all[j], q),
    {
        if command_matches_query(&items[i], matcher) {
            found = true;
        }
    }
    if !found {
        return items;
    }
    let mut out: Vec<Match> = Vec::new();
    assert(all.take(0) =~= Seq::<Match>::empty());
    for i in 0..n
        invariant
            n == all.len(),
            all == items@,
            q == matcher.query_view(),
            out@ == all.take(i as int).filter(exact_pred(q)),
    {
        proof {
            lemma_filter_step(all, exact_pred(q), i as int);
        }
        let item = &items[i];
        if exact_match(item, matcher) || command_matches_query(item, matcher) {
            out.push(item.duplicate());
        }
    }
    assert(all.take(n as int) =~= all);
    out
}

fn keep_commands_first(items: Vec<Match>, matcher: &QueryMatcher) -> (r: Vec<Match>)
    ensures
        r@ == commands_first(items@, matcher.query_view()),
{
    let ghost q = matcher.query_view();
    let ghost all = items@;
    let n = items.len();
    let mut any_command = false;
    let mut managed: Vec<String> = Vec::new();
    assert(all.take(0) =~= Seq::<Match>::empty());
    for i in 0..n
        invariant
            n == all.len(),
            all == items@,
            any_command <==> exists|j: int| 0 <= j < i && (#[trigger] all[j]).command_path is Some,
            texts(managed@) == all.take(i as int).filter(managed_pred()).map_values(command_of()),
    {
        let ghost before = texts(managed@);
        proof {
            lemma_filter_step(all, managed_pred(), i as int);
        }
        let item = &items[i];
        match &item.command_path {
            Some(p) => {
                any_command = true;
                if !str_eq(item.backend.as_str(), "Standalone") {
                    managed.push(p.clone());
                    assert(texts(managed@) =~= before.push(command_of()(all[i as int])));
                    assert(all.take(i + 1).filter(managed_pred()).map_values(command_of())
                        =~= before.push(command_of()(all[i as int])));
                }
            },
            None => {},
        }
    }
    assert(all.take(n as int) =~= all);
    if !any_command {
        return items;
    }
    let ghost mv = texts(managed@);
    let mut out: Vec<Match> = Vec::new();
    for i in 0..n
        invariant
            n == all.len(),
            all == items@,
            q == matcher.query_view(),
            mv == texts(managed@),
            out@ == all.take(i as int).filter(beside_commands(mv, q)),
    {
        proof {
            lemma_filter_step(all, beside_commands(mv, q), i as int);
        }
        let item = &items[i];
        let managed_file = match &item.command_path {
            Some(p) => str_eq(item.backend.as_str(), "Standalone") && path_in_exec(&managed, p.as_str()),
            None => false,
        };
        let keep = !managed_file && (item.command_path.is_some() || exact_match(item, matcher));
        if keep {
            out.push(item.duplicate());
        }
    }
    assert(all.take(n as int) =~= all);
    out
}


// ---------------------------------------------------------------------------
// Ranking results
// ---------------------------------------------------------------------------

pub type Score = (int, int, Seq<char>);

proof fn lemma_score_order(a: Score, b: Score, c: Score)
    ensures
        !score_lt(a, a),
        score_lt(a, b) ==> !score_lt(b, a),
        score_lt(a, b) && score_lt(b, c) ==> score_lt(a, c),
        !score_lt(a, b) && !score_lt(b, a) ==> a == b,
{
    lemma_chars_lt_irreflexive_asymmetric(a.2, a.2);
    lemma_chars_lt_irreflexive_asymmetric(a.2, b.2);
    lemma_chars_lt_irreflexive_asymmetric(b.2, a.2);
    if score_lt(a, b) && score_lt(b, c) && a.0 == b.0 && b.0 == c.0 && a.1 == b.1 && b.1 == c.1 {
        lemma_chars_lt_transitive(a.2, b.2, c.2);
    }
    if !score_lt(a, b) && !score_lt(b, a) {
        lemma_chars_lt_total(a.2, b.2);
    }
}

/// `order` lists positions `0..n` of `scores` once each, by ascending
/// score, equal scores in their original order.
pub open spec fn stable_order(scores: Seq<Score>, order: Seq<int>, n: int) -> bool {
    &&& order.len() == n
    &&& forall|k: int| 0 <= k < n ==> 0 <= #[trigger] order[k] < n
    &&& forall|k: int, l: int| 0 <= k < l < n ==> order[k] != order[l]
    &&& forall|k: int, l: int|
        0 <= k < l < n ==> !score_lt(scores[order[l]], scores[order[k]])
    &&& forall|k: int, l: int|
        0 <= k < l < n && scores[order[k]] == scores[order[l]] ==> order[k] < order[l]
}

proof fn lemma_insert_in_order(scores: Seq<Score>, order: Seq<int>, i: int, pos: int)
    requires
        0 <= i < scores.len(),
        stable_order(scores, order, i),
        0 <= pos <= i,
        forall|k: int| 0 <= k < pos ==> !score_lt(scores[i], scores[#[trigger] order[k]]),
        pos < i ==> score_lt(scores[i], scores[order[pos]]),
    ensures
        stable_order(scores, order.insert(pos, i), i + 1),
{
    let o2 = order.insert(pos, i);
    assert forall|k: int| 0 <= k < i + 1 implies 0 <= #[trigger] o2[k] < i + 1 by {
        if k < pos {
            assert(o2[k] == order[k]);
        } else if k > pos {
            assert(o2[k] == order[k - 1]);
        }
    }
    assert forall|k: int, l: int| 0 <= k < l < i + 1 implies o2[k] != o2[l] && !score_lt(
        scores[o2[l]],
        scores[o2[k]],
    ) && (scores[o2[k]] == scores[o2[l]] ==> o2[k] < o2[l]) by {
        let x = if k < pos { k } else if k == pos { -1 } else { k - 1 };
        let y = if l < pos { l } else if l == pos { -1 } else { l - 1 };
        if k != pos {
            assert(o2[k] == order[x]);
            assert(0 <= order[x] < i);
        }
        if l != pos {
            assert(o2[l] == order[y]);
            assert(0 <= order[y] < i);
        }
        if k == pos {
            // the new element against a later one
            assert(o2[k] == i);
            lemma_score_order(scores[i], scores[order[pos]], scores[order[y]]);
            lemma_score_order(scores[order[y]], scores[i], scores[order[pos]]);
            if pos < y {
                assert(!score_lt(scores[order[y]], scores[order[pos]]));
            }
        } else if l == pos {
            assert(o2[l] == i);
            lemma_score_order(scores[i], scores[order[x]], scores[i]);
        }
    }
}

/// `out` holds the items of `src` ordered by score, stably.
pub open spec fn ranked_by(src: Seq<Match>, out: Seq<Match>, query: Seq<char>, order: Seq<int>) -> bool {
    &&& out.len() == src.len()
    &&& stable_order(Seq::new(src.len(), |j: int| score_spec(src[j], query)), order, src.len() as int)
    &&& forall|k: int| 0 <= k < out.len() ==> out[k] == src[#[trigger] order[k]]
}

/// Sorts results by score, keeping the order of equal scores.
fn sort_by_score(items: Vec<Match>, matcher: &QueryMatcher) -> (r: Vec<Match>)
    ensures
        exists|order: Seq<int>| ranked_by(items@, r@, matcher.query_view(), order),
{
    let ghost q = matcher.query_view();
    let ghost all = items@;
    let n = items.len();
    let ghost sc = Seq::new(n as nat, |j: int| score_spec(all[j], q));
    let mut scores: Vec<(u8, usize, String)> = Vec::new();
    for i in 0..n
        invariant
            n == all.len(),
            all == items@,
            q == matcher.query_view(),
            scores@.len() == i,
            forall|j: int|
                0 <= j < i ==> (#[trigger] scores@[j].0 as int, scores@[j].1 as int, scores@[j].2@)
                    == score_spec(all[j], q),
    {
        scores.push(score(&items[i], matcher));
    }
    let mut order: Vec<usize> = Vec::new();
    for i in 0..n
        invariant
            n == all.len(),
            sc.len() == n,
            scores@.len() == n,
            forall|j: int| 0 <= j < n ==> sc[j] == score_spec(all[j], q),
            forall|j: int|
                0 <= j < n ==> (#[trigger] scores@[j].0 as int, scores@[j].1 as int, scores@[j].2@)
                    == score_spec(all[j], q),
            stable_order(sc, order@.map_values(|x: usize| x as int), i as int),
    {
        let ghost ov = order@.map_values(|x: usize| x as int);
        assert forall|k: int| 0 <= k < order@.len() implies (#[trigger] order@[k] as int) < n by {
            assert(ov[k] == order@[k] as int);
        }
        let mut pos: usize = 0;
        while pos < order.len() && !score_less(&scores[i], &scores[order[pos]])
            invariant
                pos <= order@.len(),
                order@.len() == i,
                i < n,
                ov == order@.map_values(|x: usize| x as int),
                stable_order(sc, ov, i as int),
                sc.len() == n,
                scores@.len() == n,
                forall|j: int| 0 <= j < n ==> sc[j] == score_spec(all[j], q),
                forall|j: int|
                    0 <= j < n ==> (#[trigger] scores@[j].0 as int, scores@[j].1 as int, scores@[j].2@)
                        == score_spec(all[j], q),
                forall|k: int| 0 <= k < pos ==> !score_lt(sc[i as int], sc[#[trigger] ov[k]]),
                forall|k: int| 0 <= k < order@.len() ==> (#[trigger] order@[k] as int) < n,
            decreases order@.len() - pos,
        {
            assert(ov[pos as int] == order@[pos as int] as int);
            pos = pos + 1;
        }
        proof {
            if pos < order.len() {
                assert(ov[pos as int] == order@[pos as int] as int);
            }
            lemma_insert_in_order(sc, ov, i as int, pos as int);
        }
        order.insert(pos, i);
        assert(order@.map_values(|x: usize| x as int) =~= ov.insert(pos as int, i as int));
    }
    let ghost ov = order@.map_values(|x: usize| x as int);
    let mut out: Vec<Match> = Vec::new();
    for k in 0..n
        invariant
            n == all.len(),
            all == items@,
            order@.len() == n,
            ov == order@.map_values(|x: usize| x as int),
            stable_order(sc, ov, n as int),
            out@.len() == k,
            forall|t: int| 0 <= t < k ==> out@[t] == all[#[trigger] ov[t]],
    {
        assert(ov[k as int] == order@[k as int] as int);
        out.push(items[order[k]].duplicate());
    }
    assert(sc =~= Seq::new(all.len(), |j: int| score_spec(all[j], q)));
    assert(ranked_by(all, out@, q, ov));
    out
}

/// The results that are offered for a query, best first: one per
/// installation, AppImages that Gear Lever manages and standalone files
/// that a manager provides left out, only exact results once a command is
/// exactly the query, and ranked by score.  `canonical` holds the resolved
/// form of source paths, as the caller found them on disk.
pub fn rank_matches(results: &Vec<Match>, canonical: &Vec<(String, String)>, query: &str) -> (r: Vec<Match>)
    ensures
        exists|order: Seq<int>|
            ranked_by(
                narrowed_spec(unique_spec(results@), pairs_view(canonical@), query@),
                r@,
                query@,
                order,
            ),
{
    let matcher = QueryMatcher::new(query);
    let unique = unique_matches(results);
    let ghost u = unique@;
    let first = drop_managed_appimages(unique, canonical);
    let ghost f = first@;
    let second = keep_exact_when_command(first, &matcher);
    let ghost g = second@;
    let step = keep_commands_first(second, &matcher);
    let ghost narrowed = step@;
    assert(u == unique_spec(results@));
    assert(f == without_managed_appimages(u, pairs_view(canonical@)));
    assert(g == exact_when_command(f, query@));
    assert(narrowed == commands_first(g, query@));
    let r = sort_by_score(step, &matcher);
    proof {
        let o = choose|o: Seq<int>| ranked_by(narrowed, r@, matcher.query_view(), o);
        assert(ranked_by(narrowed, r@, query@, o));
        assert(narrowed == narrowed_spec(unique_spec(results@), pairs_view(canonical@), query@));
        assert(ranked_by(
            narrowed_spec(unique_spec(results@), pairs_view(canonical@), query@),
            r@,
            query@,
            o,
        ));
    }
    r
}


// ---------------------------------------------------------------------------
// Which detectors run
// ---------------------------------------------------------------------------

/// Which detectors to run after the command owner was looked up.
#[derive(Clone, Copy, Debug, PartialEq, Eq, Structural)]
pub enum DetectorPlan {
    /// No owner was found: every detector.
    All,
    /// The command is a file that no manager owns: only Gear Lever, and the
    /// desktop entries when one of them is an AppImage.
    FileTools { desktop: bool },
    /// A manager owns the command: every detector but the native manager's
    /// and OPKG's, which found it already.
    WithoutNative,
}

pub open spec fn is_file_owner(m: Match) -> bool {
    m.backend@ == "Standalone"@ || m.backend@ == "AppImage"@
}

pub open spec fn detector_plan_spec(owner: Seq<Match>) -> DetectorPlan {
    if owner.len() == 0 {
        DetectorPlan::All
    } else if forall|i: int| 0 <= i < owner.len() ==> is_file_owner(#[trigger] owner[i]) {
        DetectorPlan::FileTools {
            desktop: exists|i: int| 0 <= i < owner.len() && (#[trigger] owner[i]).backend@ == "AppImage"@,
        }
    } else {
        DetectorPlan::WithoutNative
    }
}

pub fn detector_plan(owner: &Vec<Match>) -> (r: DetectorPlan)
    ensures
        r == detector_plan_spec(owner@),
{
    if owner.len() == 0 {
        return DetectorPlan::All;
    }
    let mut files = true;
    let mut appimage = false;
    for i in 0..owner.len()
        invariant
            files <==> forall|j: int| 0 <= j < i ==> is_file_owner(#[trigger] owner@[j]),
            appimage <==> exists|j: int| 0 <= j < i && (#[trigger] owner@[j]).backend@ == "AppImage"@,
    {
        let b = owner[i].backend.as_str();
        let is_appimage = str_eq(b, "AppImage");
        if !(str_eq(b, "Standalone") || is_appimage) {
            files = false;
        }
        if is_appimage {
            appimage = true;
        }
    }
    if files {
        DetectorPlan::FileTools { desktop: appimage }
    } else {
        DetectorPlan::WithoutNative
    }
}

} // verus!
