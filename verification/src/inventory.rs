//! What each package manager lists as installed: reading its listing,
//! keeping what is relevant to a query, and describing each entry as a
//! match.
use crate::lines::{lines_of, lines_spec, split_chars, split_on, words_of, words_spec};
use crate::model::{Match, Role};
use crate::number::{parse_u64, unsigned_value};
use crate::owner::nat_of;
use crate::provenance::opt_texts_of;
use crate::text::{chars_of, copy_chars, owned, string_of};
use crate::discovery::{name_version_spec, split_name_version};
use crate::lines::{ascii_lower_chars, ascii_lower_seq, first_word, first_word_of, non_empty};
use crate::discovery::{split_xbps, xbps_split_spec};
use crate::text::{is_space, is_space_char};
use crate::matching::{field_keys, has_field, json_field_keys, json_has_field, json_root_keys, root_keys};
use crate::model::texts;
use crate::text::{contains_chars, contains_seq, find_char, first_index, lemma_first_index, slice_chars, trim_chars, trim_spec};
use crate::util::{deep, package_base, package_base_spec, relevant, relevant_spec, views};
use crate::discovery::{exact_spec, QueryMatcher};
use crate::matching::{capture_first, regex_group};
use crate::provenance::{field_value, record_view, KeyRecord};
use crate::sorting::{sort_dedup, sort_unique};
use crate::discovery::{portage_world_contains, world_contains_spec};
use crate::util::{path_within, path_within_spec};
use crate::matching::{capture_pair, regex_pair};
use crate::text::{push_char, push_chars, str_eq};
use vstd::prelude::*;

verus! {

// ---------------------------------------------------------------------------
// Listings
// ---------------------------------------------------------------------------

/// The entries that `f` reports for the elements of `s`, in order.
pub open spec fn gather<A, T>(s: Seq<A>, f: spec_fn(A) -> Option<T>) -> Seq<T>
    decreases s.len(),
{
    if s.len() == 0 {
        Seq::empty()
    } else {
        let prev = gather(s.drop_last(), f);
        match f(s.last()) {
            Some(y) => prev.push(y),
            None => prev,
        }
    }
}

pub proof fn lemma_gather_push<A, T>(s: Seq<A>, x: A, f: spec_fn(A) -> Option<T>)
    ensures
        gather(s.push(x), f) == (match f(x) {
            Some(y) => gather(s, f).push(y),
            None => gather(s, f),
        }),
{
    assert(s.push(x).drop_last() =~= s);
}

/// All lines but the first (a listing's header).
pub open spec fn after_header(s: Seq<Seq<char>>) -> Seq<Seq<char>> {
    if s.len() == 0 {
        s
    } else {
        s.skip(1)
    }
}

/// What a listing reports of one installed item.
pub struct Found {
    pub backend: Seq<char>,
    pub id: Seq<char>,
    pub name: Seq<char>,
    pub version: Seq<char>,
    pub summary: Seq<char>,
    pub origin: Seq<char>,
    pub scope: Seq<char>,
    pub profile: Seq<char>,
    pub installation: Seq<char>,
    pub architecture: Seq<char>,
    pub size: Option<nat>,
    pub role: Role,
    pub command: Option<Seq<char>>,
    pub source: Option<Seq<char>>,
}

/// An item found by `backend`, with everything else as a fresh match has
/// it: system scope, unknown role, no size, no paths, empty texts.
pub open spec fn found(backend: Seq<char>, id: Seq<char>, name: Seq<char>) -> Found {
    Found {
        backend,
        id,
        name,
        version: Seq::empty(),
        summary: Seq::empty(),
        origin: Seq::empty(),
        scope: "system"@,
        profile: Seq::empty(),
        installation: Seq::empty(),
        architecture: Seq::empty(),
        size: None,
        role: Role::Unknown,
        command: None,
        source: None,
    }
}

/// A match that says exactly what the listing reported, with no reason and
/// no evidence yet.
pub open spec fn shows(m: Match, f: Found) -> bool {
    &&& m.backend@ == f.backend
    &&& m.id@ == f.id
    &&& m.name@ == f.name
    &&& m.version@ == f.version
    &&& m.summary@ == f.summary
    &&& m.origin@ == f.origin
    &&& m.scope@ == f.scope
    &&& m.profile@ == f.profile
    &&& m.installation@ == f.installation
    &&& m.architecture@ == f.architecture
    &&& nat_of(m.installed_size_bytes) == f.size
    &&& m.role == f.role
    &&& opt_texts_of(m.command_path) == f.command
    &&& opt_texts_of(m.source_path) == f.source
    &&& m.reason@ == Seq::<char>::empty()
    &&& m.evidence@ == Seq::<char>::empty()
}

/// One match per reported item, in the same order.
pub open spec fn shows_all(ms: Seq<Match>, fs: Seq<Found>) -> bool {
    &&& ms.len() == fs.len()
    &&& forall|i: int| 0 <= i < ms.len() ==> #[trigger] shows(ms[i], fs[i])
}

pub proof fn lemma_shows_push(ms: Seq<Match>, fs: Seq<Found>, m: Match, f: Found)
    requires
        shows_all(ms, fs),
        shows(m, f),
    ensures
        shows_all(ms.push(m), fs.push(f)),
{
    assert forall|i: int| 0 <= i < ms.len() + 1 implies #[trigger] shows(
        ms.push(m)[i],
        fs.push(f)[i],
    ) by {
        if i < ms.len() {
            assert(ms.push(m)[i] == ms[i]);
            assert(fs.push(f)[i] == fs[i]);
        }
    }
}

pub(crate) fn fresh(backend: &str, id: &[char], name: &[char]) -> (r: Match)
    ensures
        shows(r, found(backend@, id@, name@)),
{
    let i = string_of(id);
    let n = string_of(name);
    Match::new(backend, i.as_str(), n.as_str())
}

/// Whether a single value is relevant to the query.
pub(crate) fn relevant_to(query: &str, v: &[char]) -> (b: bool)
    ensures
        b == relevant_spec(query@, seq![v@]),
{
    let s = string_of(v);
    let values = [s.as_str()];
    let b = relevant(query, &values);
    assert(views(values@) =~= seq![v@]);
    b
}

/// Whether either of two values is relevant to the query.
pub(crate) fn relevant_either(query: &str, a: &[char], c: &[char]) -> (b: bool)
    ensures
        b == relevant_spec(query@, seq![a@, c@]),
{
    let s = string_of(a);
    let t = string_of(c);
    let values = [s.as_str(), t.as_str()];
    let b = relevant(query, &values);
    assert(views(values@) =~= seq![a@, c@]);
    b
}

pub(crate) fn word(ws: &Vec<Vec<char>>, i: usize) -> (r: Vec<char>)
    requires
        i < ws@.len(),
    ensures
        r@ == ws@[i as int]@,
{
    copy_chars(&ws[i])
}

// ---------------------------------------------------------------------------
// Snap, Guix and Nix
// ---------------------------------------------------------------------------

/// A line of `snap list` (after its header): a snap and its version, when
/// the snap's name is relevant.
pub open spec fn snap_entry(query: Seq<char>, line: Seq<char>) -> Option<Found> {
    let w = words_spec(line);
    if w.len() >= 2 && relevant_spec(query, seq![w[0]]) {
        Some(Found { version: w[1], role: Role::Explicit, ..found("Snap"@, w[0], w[0]) })
    } else {
        None
    }
}

pub open spec fn snap_spec(text: Seq<char>, query: Seq<char>) -> Seq<Found> {
    gather(after_header(lines_spec(text)), |l: Seq<char>| snap_entry(query, l))
}

/// The snaps of a `snap list` report that are relevant to the query.
pub fn snap_listing(text: &str, query: &str) -> (r: Vec<Match>)
    ensures
        shows_all(r@, snap_spec(text@, query@)),
{
    let lines = lines_of(&chars_of(text));
    let ghost ls = deep(lines@);
    let ghost f = |l: Seq<char>| snap_entry(query@, l);
    let mut out: Vec<Match> = Vec::new();
    if lines.len() == 0 {
        assert(after_header(ls) =~= Seq::<Seq<char>>::empty());
        return out;
    }
    let n = lines.len();
    let mut i: usize = 1;
    assert(ls.subrange(1, 1) =~= Seq::<Seq<char>>::empty());
    while i < n
        invariant
            1 <= i <= n,
            n == lines@.len(),
            ls == deep(lines@),
            f == (|l: Seq<char>| snap_entry(query@, l)),
            shows_all(out@, gather(ls.subrange(1, i as int), f)),
        decreases n - i,
    {
        let ws = words_of(&lines[i]);
        let ghost before = ls.subrange(1, i as int);
        proof {
            assert(ls.subrange(1, i + 1) =~= before.push(ls[i as int]));
            lemma_gather_push(before, ls[i as int], f);
            assert(ls[i as int] == lines@[i as int]@);
        }
        if ws.len() >= 2 {
            let name = word(&ws, 0);
            if relevant_to(query, &name) {
                let mut m = fresh("Snap", &name, &name);
                m.version = string_of(&ws[1]);
                m.role = Role::Explicit;
                proof {
                    lemma_shows_push(out@, gather(before, f), m, f(ls[i as int])->Some_0);
                }
                out.push(m);
            }
        }
        i = i + 1;
    }
    assert(ls.subrange(1, n as int) =~= after_header(ls));
    out
}

/// A line of `guix package --list-installed`: a package and its version,
/// when the package's name is relevant; it belongs to `profile`.
pub open spec fn guix_entry(query: Seq<char>, profile: Seq<char>, line: Seq<char>) -> Option<Found> {
    let w = words_spec(line);
    if w.len() >= 2 && relevant_spec(query, seq![w[0]]) {
        Some(
            Found {
                version: w[1],
                profile,
                scope: "user"@,
                role: Role::Explicit,
                ..found("Guix"@, w[0], w[0])
            },
        )
    } else {
        None
    }
}

pub open spec fn guix_spec(text: Seq<char>, query: Seq<char>, profile: Seq<char>) -> Seq<Found> {
    gather(lines_spec(text), |l: Seq<char>| guix_entry(query, profile, l))
}

/// The packages of a Guix profile listing that are relevant to the query.
pub fn guix_listing(text: &str, query: &str, profile: &str) -> (r: Vec<Match>)
    ensures
        shows_all(r@, guix_spec(text@, query@, profile@)),
{
    let lines = lines_of(&chars_of(text));
    let ghost ls = deep(lines@);
    let ghost f = |l: Seq<char>| guix_entry(query@, profile@, l);
    let mut out: Vec<Match> = Vec::new();
    let n = lines.len();
    let mut i: usize = 0;
    assert(ls.take(0) =~= Seq::<Seq<char>>::empty());
    while i < n
        invariant
            i <= n,
            n == lines@.len(),
            ls == deep(lines@),
            f == (|l: Seq<char>| guix_entry(query@, profile@, l)),
            shows_all(out@, gather(ls.take(i as int), f)),
        decreases n - i,
    {
        let ws = words_of(&lines[i]);
        let ghost before = ls.take(i as int);
        proof {
            assert(ls.take(i + 1) =~= before.push(ls[i as int]));
            lemma_gather_push(before, ls[i as int], f);
            assert(ls[i as int] == lines@[i as int]@);
        }
        if ws.len() >= 2 {
            let name = word(&ws, 0);
            if relevant_to(query, &name) {
                let mut m = fresh("Guix", &name, &name);
                m.version = string_of(&ws[1]);
                m.profile = owned(profile);
                m.scope = owned("user");
                m.role = Role::Explicit;
                proof {
                    lemma_shows_push(out@, gather(before, f), m, f(ls[i as int])->Some_0);
                }
                out.push(m);
            }
        }
        i = i + 1;
    }
    assert(ls.take(n as int) =~= ls);
    out
}

/// A line of `nix-env --query --installed --out-path`: the package's name
/// and version from its first field, and its store path from the second.
pub open spec fn nix_legacy_entry(query: Seq<char>, line: Seq<char>) -> Option<Found> {
    let w = words_spec(line);
    if w.len() >= 1 {
        let (name, version) = name_version_spec(w[0]);
        if relevant_spec(query, seq![name]) {
            Some(
                Found {
                    version,
                    origin: if w.len() >= 2 {
                        w[1]
                    } else {
                        Seq::empty()
                    },
                    scope: "user"@,
                    role: Role::Explicit,
                    ..found("Nix Legacy"@, name, name)
                },
            )
        } else {
            None
        }
    } else {
        None
    }
}

pub open spec fn nix_legacy_spec(text: Seq<char>, query: Seq<char>) -> Seq<Found> {
    gather(lines_spec(text), |l: Seq<char>| nix_legacy_entry(query, l))
}

/// The packages of a legacy Nix profile listing that are relevant to the
/// query.
pub fn nix_legacy_listing(text: &str, query: &str) -> (r: Vec<Match>)
    ensures
        shows_all(r@, nix_legacy_spec(text@, query@)),
{
    let lines = lines_of(&chars_of(text));
    let ghost ls = deep(lines@);
    let ghost f = |l: Seq<char>| nix_legacy_entry(query@, l);
    let mut out: Vec<Match> = Vec::new();
    let n = lines.len();
    let mut i: usize = 0;
    assert(ls.take(0) =~= Seq::<Seq<char>>::empty());
    while i < n
        invariant
            i <= n,
            n == lines@.len(),
            ls == deep(lines@),
            f == (|l: Seq<char>| nix_legacy_entry(query@, l)),
            shows_all(out@, gather(ls.take(i as int), f)),
        decreases n - i,
    {
        let ws = words_of(&lines[i]);
        let ghost before = ls.take(i as int);
        proof {
            assert(ls.take(i + 1) =~= before.push(ls[i as int]));
            lemma_gather_push(before, ls[i as int], f);
            assert(ls[i as int] == lines@[i as int]@);
        }
        if ws.len() >= 1 {
            let first = string_of(&ws[0]);
            let (name, version) = split_name_version(first.as_str());
            let name_chars = chars_of(name.as_str());
            if relevant_to(query, &name_chars) {
                let mut m = fresh("Nix Legacy", &name_chars, &name_chars);
                m.version = version;
                if ws.len() >= 2 {
                    m.origin = string_of(&ws[1]);
                }
                m.scope = owned("user");
                m.role = Role::Explicit;
                proof {
                    lemma_shows_push(out@, gather(before, f), m, f(ls[i as int])->Some_0);
                }
                out.push(m);
            }
        }
        i = i + 1;
    }
    assert(ls.take(n as int) =~= ls);
    out
}

/// The element names of a `nix profile list --json` report: the keys of
/// its `elements` object, or of the report itself when it has no such
/// field.
pub open spec fn nix_profile_keys(text: Seq<char>) -> Option<Seq<Seq<char>>> {
    if json_has_field(text, "elements"@) {
        json_field_keys(text, "elements"@)
    } else {
        json_root_keys(text)
    }
}

pub open spec fn nix_profile_entry(query: Seq<char>, key: Seq<char>) -> Option<Found> {
    if relevant_spec(query, seq![key]) {
        Some(Found { scope: "user"@, role: Role::Explicit, ..found("Nix"@, key, key) })
    } else {
        None
    }
}

pub open spec fn nix_profile_spec(text: Seq<char>, query: Seq<char>) -> Seq<Found> {
    match nix_profile_keys(text) {
        Some(keys) => gather(keys, |k: Seq<char>| nix_profile_entry(query, k)),
        None => Seq::empty(),
    }
}

/// The elements of a Nix profile that are relevant to the query.
pub fn nix_profile_listing(text: &str, query: &str) -> (r: Vec<Match>)
    ensures
        shows_all(r@, nix_profile_spec(text@, query@)),
{
    let keys = if has_field(text, "elements") {
        field_keys(text, "elements")
    } else {
        root_keys(text)
    };
    let mut out: Vec<Match> = Vec::new();
    let keys = match keys {
        Some(k) => k,
        None => {
            return out;
        },
    };
    let ghost ks = texts(keys@);
    let ghost f = |k: Seq<char>| nix_profile_entry(query@, k);
    assert(ks == nix_profile_keys(text@)->Some_0);
    let n = keys.len();
    let mut i: usize = 0;
    assert(ks.take(0) =~= Seq::<Seq<char>>::empty());
    while i < n
        invariant
            i <= n,
            n == keys@.len(),
            ks == texts(keys@),
            f == (|k: Seq<char>| nix_profile_entry(query@, k)),
            shows_all(out@, gather(ks.take(i as int), f)),
        decreases n - i,
    {
        let key = chars_of(keys[i].as_str());
        let ghost before = ks.take(i as int);
        proof {
            assert(ks.take(i + 1) =~= before.push(ks[i as int]));
            lemma_gather_push(before, ks[i as int], f);
        }
        if relevant_to(query, &key) {
            let mut m = fresh("Nix", &key, &key);
            m.scope = owned("user");
            m.role = Role::Explicit;
            proof {
                lemma_shows_push(out@, gather(before, f), m, f(ks[i as int])->Some_0);
            }
            out.push(m);
        }
        i = i + 1;
    }
    assert(ks.take(n as int) =~= ks);
    out
}

// ---------------------------------------------------------------------------
// Swupd
// ---------------------------------------------------------------------------

/// The text before and after the first `c`, when there is one.
pub open spec fn split_once_char(s: Seq<char>, c: char) -> Option<(Seq<char>, Seq<char>)> {
    let i = first_index(s, c);
    if i < s.len() {
        Some((s.take(i), s.skip(i + 1)))
    } else {
        None
    }
}

fn split_once_at(s: &[char], c: char) -> (r: Option<(Vec<char>, Vec<char>)>)
    ensures
        match r {
            Some((a, b)) => split_once_char(s@, c) == Some((a@, b@)),
            None => split_once_char(s@, c) is None,
        },
{
    let i = find_char(s, c);
    proof {
        lemma_first_index(s@, c);
    }
    if i < s.len() {
        let a = slice_chars(s, 0, i);
        let b = slice_chars(s, i + 1, s.len());
        assert(a@ =~= s@.take(i as int));
        assert(b@ =~= s@.skip(i + 1));
        Some((a, b))
    } else {
        None
    }
}

/// A line of `swupd bundle-list --status`: a bundle, explicitly installed
/// when its status says so and a dependency otherwise.
pub open spec fn swupd_entry(query: Seq<char>, line: Seq<char>) -> Option<Found> {
    match split_once_char(line, ':') {
        Some((name, detail)) => if relevant_spec(query, seq![name]) {
            Some(
                Found {
                    role: if contains_seq(ascii_lower_seq(detail), "explicit"@) {
                        Role::Explicit
                    } else {
                        Role::Dependency
                    },
                    ..found("Swupd"@, trim_spec(name), trim_spec(name))
                },
            )
        } else {
            None
        },
        None => None,
    }
}

pub open spec fn swupd_spec(text: Seq<char>, query: Seq<char>) -> Seq<Found> {
    gather(lines_spec(text), |l: Seq<char>| swupd_entry(query, l))
}

/// The bundles of a Swupd status report that are relevant to the query.
pub fn swupd_listing(text: &str, query: &str) -> (r: Vec<Match>)
    ensures
        shows_all(r@, swupd_spec(text@, query@)),
{
    let lines = lines_of(&chars_of(text));
    let ghost ls = deep(lines@);
    let ghost f = |l: Seq<char>| swupd_entry(query@, l);
    let mut out: Vec<Match> = Vec::new();
    let n = lines.len();
    let mut i: usize = 0;
    let explicit = chars_of("explicit");
    assert(ls.take(0) =~= Seq::<Seq<char>>::empty());
    while i < n
        invariant
            i <= n,
            n == lines@.len(),
            ls == deep(lines@),
            explicit@ == "explicit"@,
            f == (|l: Seq<char>| swupd_entry(query@, l)),
            shows_all(out@, gather(ls.take(i as int), f)),
        decreases n - i,
    {
        let ghost before = ls.take(i as int);
        proof {
            assert(ls.take(i + 1) =~= before.push(ls[i as int]));
            lemma_gather_push(before, ls[i as int], f);
            assert(ls[i as int] == lines@[i as int]@);
        }
        match split_once_at(&lines[i], ':') {
            Some((name, detail)) => {
                if relevant_to(query, &name) {
                    let t = trim_chars(&name);
                    let mut m = fresh("Swupd", &t, &t);
                    let lower = ascii_lower_chars(&detail);
                    m.role = if contains_chars(&lower, &explicit) {
                        Role::Explicit
                    } else {
                        Role::Dependency
                    };
                    proof {
                        lemma_shows_push(out@, gather(before, f), m, f(ls[i as int])->Some_0);
                    }
                    out.push(m);
                }
            },
            None => {},
        }
        i = i + 1;
    }
    assert(ls.take(n as int) =~= ls);
    out
}

/// A line of a third-party repository's bundle list: its first word names
/// a bundle of that repository.
pub open spec fn swupd_bundle_entry(query: Seq<char>, repository: Seq<char>, line: Seq<char>) -> Option<Found> {
    let w = words_spec(line);
    if w.len() >= 1 && relevant_spec(query, seq![w[0]]) {
        Some(
            Found {
                origin: repository,
                role: Role::Explicit,
                ..found("Swupd 3rd-party"@, w[0], w[0])
            },
        )
    } else {
        None
    }
}

pub open spec fn swupd_bundles_spec(text: Seq<char>, query: Seq<char>, repository: Seq<char>) -> Seq<Found> {
    gather(lines_spec(text), |l: Seq<char>| swupd_bundle_entry(query, repository, l))
}

/// The bundles of a third-party repository that are relevant to the query.
pub fn swupd_bundles(text: &str, query: &str, repository: &str) -> (r: Vec<Match>)
    ensures
        shows_all(r@, swupd_bundles_spec(text@, query@, repository@)),
{
    let lines = lines_of(&chars_of(text));
    let ghost ls = deep(lines@);
    let ghost f = |l: Seq<char>| swupd_bundle_entry(query@, repository@, l);
    let mut out: Vec<Match> = Vec::new();
    let n = lines.len();
    let mut i: usize = 0;
    assert(ls.take(0) =~= Seq::<Seq<char>>::empty());
    while i < n
        invariant
            i <= n,
            n == lines@.len(),
            ls == deep(lines@),
            f == (|l: Seq<char>| swupd_bundle_entry(query@, repository@, l)),
            shows_all(out@, gather(ls.take(i as int), f)),
        decreases n - i,
    {
        let ws = words_of(&lines[i]);
        let ghost before = ls.take(i as int);
        proof {
            assert(ls.take(i + 1) =~= before.push(ls[i as int]));
            lemma_gather_push(before, ls[i as int], f);
            assert(ls[i as int] == lines@[i as int]@);
        }
        if ws.len() >= 1 {
            let id = word(&ws, 0);
            if relevant_to(query, &id) {
                let mut m = fresh("Swupd 3rd-party", &id, &id);
                m.origin = owned(repository);
                m.role = Role::Explicit;
                proof {
                    lemma_shows_push(out@, gather(before, f), m, f(ls[i as int])->Some_0);
                }
                out.push(m);
            }
        }
        i = i + 1;
    }
    assert(ls.take(n as int) =~= ls);
    out
}

// ---------------------------------------------------------------------------
// Fields
// ---------------------------------------------------------------------------

/// `str::splitn(n, c)`: at most `n` pieces, the last holding the rest.
pub open spec fn splitn_on(s: Seq<char>, c: char, n: nat) -> Seq<Seq<char>>
    decreases s.len(),
{
    let i = first_index(s, c);
    if n <= 1 || !(0 <= i < s.len()) {
        seq![s]
    } else {
        seq![s.take(i)] + splitn_on(s.skip(i + 1), c, (n - 1) as nat)
    }
}

fn splitn_chars(s: &[char], c: char, n: usize) -> (r: Vec<Vec<char>>)
    ensures
        deep(r@) == splitn_on(s@, c, n as nat),
    decreases s@.len(),
{
    let i = find_char(s, c);
    proof {
        lemma_first_index(s@, c);
    }
    if n <= 1 || i >= s.len() {
        let mut out: Vec<Vec<char>> = Vec::new();
        out.push(copy_chars(s));
        assert(deep(out@) =~= seq![s@]);
        out
    } else {
        let head = slice_chars(s, 0, i);
        let rest = slice_chars(s, i + 1, s.len());
        assert(rest@ =~= s@.skip(i + 1));
        let tail = splitn_chars(&rest, c, n - 1);
        let mut out: Vec<Vec<char>> = Vec::new();
        out.push(head);
        let ghost first = out@;
        let mut j: usize = 0;
        while j < tail.len()
            invariant
                j <= tail@.len(),
                out@.len() == j + 1,
                out@[0]@ == s@.take(i as int),
                forall|k: int| 0 <= k < j ==> #[trigger] out@[k + 1]@ == tail@[k]@,
            decreases tail@.len() - j,
        {
            out.push(copy_chars(&tail[j]));
            j = j + 1;
        }
        let ghost want = seq![s@.take(i as int)] + deep(tail@);
        assert forall|k: int| 0 <= k < want.len() implies deep(out@)[k] == want[k] by {
            if k > 0 {
                assert(out@[(k - 1) + 1]@ == tail@[k - 1]@);
            }
        }
        assert(deep(out@) =~= want);
        out
    }
}

pub(crate) fn field(fields: &Vec<Vec<char>>, i: usize) -> (r: Vec<char>)
    ensures
        r@ == (if i < fields@.len() {
            fields@[i as int]@
        } else {
            Seq::<char>::empty()
        }),
{
    if i < fields.len() {
        copy_chars(&fields[i])
    } else {
        Vec::new()
    }
}

/// A piece of a split line, or nothing when the line is shorter.
pub open spec fn piece(p: Seq<Seq<char>>, i: int) -> Seq<char> {
    if 0 <= i < p.len() {
        p[i]
    } else {
        Seq::empty()
    }
}

/// Matches, each with a text that the caller completes it with: a size
/// with units to read where floating point is available, or a command to
/// locate on `PATH`.
pub open spec fn shows_paired(ms: Seq<(Match, Option<String>)>, fs: Seq<(Found, Option<Seq<char>>)>) -> bool {
    &&& ms.len() == fs.len()
    &&& forall|i: int|
        0 <= i < ms.len() ==> #[trigger] shows(ms[i].0, fs[i].0) && opt_texts_of(ms[i].1)
            == fs[i].1
}

pub proof fn lemma_paired_push(
    ms: Seq<(Match, Option<String>)>,
    fs: Seq<(Found, Option<Seq<char>>)>,
    m: (Match, Option<String>),
    f: (Found, Option<Seq<char>>),
)
    requires
        shows_paired(ms, fs),
        shows(m.0, f.0),
        opt_texts_of(m.1) == f.1,
    ensures
        shows_paired(ms.push(m), fs.push(f)),
{
    assert forall|i: int| 0 <= i < ms.len() + 1 implies #[trigger] shows(
        ms.push(m)[i].0,
        fs.push(f)[i].0,
    ) && opt_texts_of(ms.push(m)[i].1) == fs.push(f)[i].1 by {
        if i < ms.len() {
            assert(ms.push(m)[i] == ms[i]);
            assert(fs.push(f)[i] == fs[i]);
        }
    }
}

// ---------------------------------------------------------------------------
// Flatpak
// ---------------------------------------------------------------------------

/// The pattern of an installation section in `installations.d`.
pub open spec fn installation_pattern() -> Seq<char> {
    "(?i)^\\[Installation\\s+\\\"([A-Za-z0-9_.-]+)\\\"\\]$"@
}

/// The installation named by a line of an installation file, if any.
pub open spec fn installation_named(line: Seq<char>) -> Option<Seq<char>> {
    regex_group(installation_pattern(), trim_spec(line))
}

/// Where Flatpak applications are listed from: the default system
/// installation, each named system installation in name order, then the
/// user installation.
pub open spec fn flatpak_locations_spec(files: Seq<Seq<char>>) -> Seq<(Seq<char>, Seq<char>)> {
    let names = sort_dedup(
        files.map_values(|t: Seq<char>| gather(lines_spec(t), |l: Seq<char>| installation_named(l))).fold_left(
            Seq::<Seq<char>>::empty(),
            |acc: Seq<Seq<char>>, x: Seq<Seq<char>>| acc + x,
        ),
    );
    seq![("system"@, Seq::<char>::empty())] + names.map_values(
        |n: Seq<char>| ("system"@, n),
    ) + seq![("user"@, Seq::<char>::empty())]
}

/// The installation names of one installation file, in order.
fn installation_names(text: &str) -> (r: Vec<String>)
    ensures
        texts(r@) == gather(lines_spec(text@), |l: Seq<char>| installation_named(l)),
{
    let lines = lines_of(&chars_of(text));
    let ghost ls = deep(lines@);
    let ghost f = |l: Seq<char>| installation_named(l);
    let mut out: Vec<String> = Vec::new();
    let n = lines.len();
    let mut i: usize = 0;
    assert(ls.take(0) =~= Seq::<Seq<char>>::empty());
    assert(texts(out@) =~= Seq::<Seq<char>>::empty());
    while i < n
        invariant
            i <= n,
            n == lines@.len(),
            ls == deep(lines@),
            f == (|l: Seq<char>| installation_named(l)),
            texts(out@) == gather(ls.take(i as int), f),
        decreases n - i,
    {
        let ghost before = ls.take(i as int);
        proof {
            assert(ls.take(i + 1) =~= before.push(ls[i as int]));
            lemma_gather_push(before, ls[i as int], f);
            assert(ls[i as int] == lines@[i as int]@);
        }
        let t = string_of(&trim_chars(&lines[i]));
        match capture_first("(?i)^\\[Installation\\s+\\\"([A-Za-z0-9_.-]+)\\\"\\]$", t.as_str()) {
            Some(g) => {
                let ghost old_out = out@;
                out.push(g);
                assert(texts(out@) =~= texts(old_out).push(out@.last()@));
            },
            None => {},
        }
        i = i + 1;
    }
    assert(ls.take(n as int) =~= ls);
    out
}

/// Where to list Flatpak applications from, given the texts of the files
/// of `installations.d`: pairs of scope and installation name (empty for
/// the default installation of that scope).
pub fn flatpak_locations(files: &Vec<String>) -> (r: Vec<(String, String)>)
    ensures
        r@.map_values(|p: (String, String)| (p.0@, p.1@)) == flatpak_locations_spec(texts(files@)),
{
    let ghost fs = texts(files@);
    let ghost g = |t: Seq<char>| gather(lines_spec(t), |l: Seq<char>| installation_named(l));
    let ghost h = |acc: Seq<Seq<char>>, x: Seq<Seq<char>>| acc + x;
    let mut all: Vec<String> = Vec::new();
    let mut i: usize = 0;
    assert(fs.map_values(g).take(0) =~= Seq::<Seq<Seq<char>>>::empty());
    assert(texts(all@) =~= Seq::<Seq<char>>::empty());
    while i < files.len()
        invariant
            i <= files@.len(),
            fs == texts(files@),
            g == (|t: Seq<char>| gather(lines_spec(t), |l: Seq<char>| installation_named(l))),
            h == (|acc: Seq<Seq<char>>, x: Seq<Seq<char>>| acc + x),
            texts(all@) == fs.map_values(g).take(i as int).fold_left(Seq::<Seq<char>>::empty(), h),
        decreases files@.len() - i,
    {
        let names = installation_names(files[i].as_str());
        let ghost before = texts(all@);
        let mut j: usize = 0;
        while j < names.len()
            invariant
                j <= names@.len(),
                texts(all@) == before + texts(names@).take(j as int),
            decreases names@.len() - j,
        {
            let ghost prev = all@;
            all.push(names[j].clone());
            assert(texts(names@).take(j + 1) =~= texts(names@).take(j as int).push(names@[j as int]@));
            assert(texts(all@) =~= texts(prev).push(names@[j as int]@));
            j = j + 1;
        }
        proof {
            assert(texts(names@).take(names@.len() as int) =~= texts(names@));
            let m = fs.map_values(g);
            assert(m.take(i + 1).drop_last() =~= m.take(i as int));
            assert(m[i as int] == g(fs[i as int]));
            assert(fs[i as int] == files@[i as int]@);
        }
        i = i + 1;
    }
    assert(fs.map_values(g).take(files@.len() as int) =~= fs.map_values(g));
    let sorted = sort_unique(&all);
    let mut out: Vec<(String, String)> = Vec::new();
    out.push((owned("system"), String::new()));
    let mut k: usize = 0;
    while k < sorted.len()
        invariant
            k <= sorted@.len(),
            out@.len() == k + 1,
            out@[0].0@ == "system"@,
            out@[0].1@ == Seq::<char>::empty(),
            forall|x: int| 0 <= x < k ==> (#[trigger] out@[x + 1]).0@ == "system"@ && out@[x + 1].1@ == sorted@[x]@,
        decreases sorted@.len() - k,
    {
        out.push((owned("system"), sorted[k].clone()));
        k = k + 1;
    }
    out.push((owned("user"), String::new()));
    let ghost names = sort_dedup(texts(all@));
    let ghost want = seq![("system"@, Seq::<char>::empty())] + names.map_values(
        |n: Seq<char>| ("system"@, n),
    ) + seq![("user"@, Seq::<char>::empty())];
    let ghost got = out@.map_values(|p: (String, String)| (p.0@, p.1@));
    assert(got.len() == want.len());
    assert forall|x: int| 0 <= x < want.len() implies got[x] == want[x] by {
        if 0 < x < want.len() - 1 {
            assert(out@[(x - 1) + 1].1@ == sorted@[x - 1]@);
            assert(texts(sorted@)[x - 1] == sorted@[x - 1]@);
        }
    }
    assert(out@.map_values(|p: (String, String)| (p.0@, p.1@)) =~= seq![("system"@, Seq::<char>::empty())] + names.map_values(
        |n: Seq<char>| ("system"@, n),
    ) + seq![("user"@, Seq::<char>::empty())]);
    out
}

/// A line of `flatpak list --columns=application,name,version,origin,size`:
/// an application, when its id or name is relevant, with its size text.
pub open spec fn flatpak_entry(
    query: Seq<char>,
    scope: Seq<char>,
    installation: Seq<char>,
    line: Seq<char>,
) -> Option<(Found, Option<Seq<char>>)> {
    let p = split_on(line, '\t');
    if p.len() >= 2 && relevant_spec(query, seq![p[0], p[1]]) {
        Some(
            (
                Found {
                    version: piece(p, 2),
                    origin: piece(p, 3),
                    scope,
                    installation,
                    role: Role::Explicit,
                    ..found("Flatpak"@, p[0], p[1])
                },
                if p.len() > 4 {
                    Some(p[4])
                } else {
                    None
                },
            ),
        )
    } else {
        None
    }
}

pub open spec fn flatpak_spec(
    text: Seq<char>,
    query: Seq<char>,
    scope: Seq<char>,
    installation: Seq<char>,
) -> Seq<(Found, Option<Seq<char>>)> {
    gather(lines_spec(text), |l: Seq<char>| flatpak_entry(query, scope, installation, l))
}

/// The applications of one Flatpak installation that are relevant to the
/// query, each with the size text of its listing.
pub fn flatpak_listing(text: &str, query: &str, scope: &str, installation: &str) -> (r: Vec<
    (Match, Option<String>),
>)
    ensures
        shows_paired(r@, flatpak_spec(text@, query@, scope@, installation@)),
{
    let lines = lines_of(&chars_of(text));
    let ghost ls = deep(lines@);
    let ghost f = |l: Seq<char>| flatpak_entry(query@, scope@, installation@, l);
    let mut out: Vec<(Match, Option<String>)> = Vec::new();
    let n = lines.len();
    let mut i: usize = 0;
    assert(ls.take(0) =~= Seq::<Seq<char>>::empty());
    while i < n
        invariant
            i <= n,
            n == lines@.len(),
            ls == deep(lines@),
            f == (|l: Seq<char>| flatpak_entry(query@, scope@, installation@, l)),
            shows_paired(out@, gather(ls.take(i as int), f)),
        decreases n - i,
    {
        let p = split_chars(&lines[i], '\t');
        let ghost before = ls.take(i as int);
        proof {
            assert(ls.take(i + 1) =~= before.push(ls[i as int]));
            lemma_gather_push(before, ls[i as int], f);
            assert(ls[i as int] == lines@[i as int]@);
        }
        if p.len() >= 2 && relevant_either(query, &p[0], &p[1]) {
            let mut m = fresh("Flatpak", &p[0], &p[1]);
            m.version = string_of(&field(&p, 2));
            m.origin = string_of(&field(&p, 3));
            m.scope = owned(scope);
            m.installation = owned(installation);
            m.role = Role::Explicit;
            let size = if p.len() > 4 {
                Some(string_of(&p[4]))
            } else {
                None
            };
            proof {
                lemma_paired_push(out@, gather(before, f), (m, size), f(ls[i as int])->Some_0);
            }
            out.push((m, size));
        }
        i = i + 1;
    }
    assert(ls.take(n as int) =~= ls);
    out
}

// ---------------------------------------------------------------------------
// Relevance of inventories
// ---------------------------------------------------------------------------

pub open spec fn relevant_item(query: Seq<char>, m: Match) -> Option<Match> {
    if relevant_spec(query, seq![m.id@, m.summary@]) {
        Some(m)
    } else {
        None
    }
}

/// The items of an inventory whose id or summary is relevant to the
/// query, in inventory order.
pub fn relevant_items(items: &Vec<Match>, query: &str) -> (r: Vec<Match>)
    ensures
        r@ == gather(items@, |m: Match| relevant_item(query@, m)),
{
    let ghost f = |m: Match| relevant_item(query@, m);
    let mut out: Vec<Match> = Vec::new();
    let mut i: usize = 0;
    assert(items@.take(0) =~= Seq::<Match>::empty());
    while i < items.len()
        invariant
            i <= items@.len(),
            f == (|m: Match| relevant_item(query@, m)),
            out@ == gather(items@.take(i as int), f),
        decreases items@.len() - i,
    {
        proof {
            assert(items@.take(i + 1) =~= items@.take(i as int).push(items@[i as int]));
            lemma_gather_push(items@.take(i as int), items@[i as int], f);
        }
        let id = chars_of(items[i].id.as_str());
        let summary = chars_of(items[i].summary.as_str());
        if relevant_either(query, &id, &summary) {
            out.push(items[i].duplicate());
        }
        i = i + 1;
    }
    assert(items@.take(items@.len() as int) =~= items@);
    out
}

// ---------------------------------------------------------------------------
// APT
// ---------------------------------------------------------------------------

/// A size in KiB, in bytes, when that fits in 64 bits.
pub open spec fn kib_bytes(v: Option<nat>) -> Option<nat> {
    match v {
        Some(k) => if k * 1024 <= u64::MAX {
            Some(k * 1024)
        } else {
            None
        },
        None => None,
    }
}

/// A line of the `dpkg-query` inventory (status, package, version,
/// summary and KiB size, tab-separated): an installed package.
pub open spec fn apt_entry(line: Seq<char>) -> Option<Found> {
    let p = splitn_on(line, '\t', 5);
    if p.len() == 5 && p[0].len() > 1 && p[0][1] == 'i' {
        Some(
            Found {
                version: p[2],
                summary: p[3],
                size: kib_bytes(unsigned_value(p[4], u64::MAX as nat)),
                ..found("APT"@, p[1], p[1])
            },
        )
    } else {
        None
    }
}

pub open spec fn apt_spec(text: Seq<char>) -> Seq<Found> {
    gather(lines_spec(text), |l: Seq<char>| apt_entry(l))
}

/// The installed packages of a `dpkg-query` inventory.
pub fn apt_inventory(text: &str) -> (r: Vec<Match>)
    ensures
        shows_all(r@, apt_spec(text@)),
{
    let lines = lines_of(&chars_of(text));
    let ghost ls = deep(lines@);
    let ghost f = |l: Seq<char>| apt_entry(l);
    let mut out: Vec<Match> = Vec::new();
    let n = lines.len();
    let mut i: usize = 0;
    assert(ls.take(0) =~= Seq::<Seq<char>>::empty());
    while i < n
        invariant
            i <= n,
            n == lines@.len(),
            ls == deep(lines@),
            f == (|l: Seq<char>| apt_entry(l)),
            shows_all(out@, gather(ls.take(i as int), f)),
        decreases n - i,
    {
        let p = splitn_chars(&lines[i], '\t', 5);
        let ghost before = ls.take(i as int);
        proof {
            assert(ls.take(i + 1) =~= before.push(ls[i as int]));
            lemma_gather_push(before, ls[i as int], f);
            assert(ls[i as int] == lines@[i as int]@);
            assert(deep(p@)[0] == p@[0]@);
        }
        if p.len() == 5 && p[0].len() > 1 && p[0][1] == 'i' {
            let mut m = fresh("APT", &p[1], &p[1]);
            m.version = string_of(&p[2]);
            m.summary = string_of(&p[3]);
            let size_text = string_of(&p[4]);
            m.installed_size_bytes = match parse_u64(size_text.as_str()) {
                Some(k) => k.checked_mul(1024),
                None => None,
            };
            proof {
                lemma_shows_push(out@, gather(before, f), m, f(ls[i as int])->Some_0);
            }
            out.push(m);
        }
        i = i + 1;
    }
    assert(ls.take(n as int) =~= ls);
    out
}

// ---------------------------------------------------------------------------
// Pacman
// ---------------------------------------------------------------------------

/// A field of a record, or nothing.
pub open spec fn value_or_empty(r: Seq<(Seq<char>, Seq<char>)>, key: Seq<char>) -> Seq<char> {
    match field_value(r, key) {
        Some(v) => v,
        None => Seq::empty(),
    }
}

fn get_or_empty(r: &KeyRecord, key: &str) -> (v: String)
    ensures
        v@ == value_or_empty(record_view(*r), key@),
{
    match r.get(key) {
        Some(v) => v,
        None => String::new(),
    }
}

/// A record of `pacman -Qi`: a package, a dependency when its install
/// reason says so and explicit otherwise, with the text of its installed
/// size.
pub open spec fn pacman_entry(r: Seq<(Seq<char>, Seq<char>)>) -> Option<(Found, Option<Seq<char>>)> {
    match field_value(r, "Name"@) {
        Some(name) => Some(
            (
                Found {
                    version: value_or_empty(r, "Version"@),
                    summary: value_or_empty(r, "Description"@),
                    role: match field_value(r, "Install Reason"@) {
                        Some(why) => if contains_seq(ascii_lower_seq(why), "dependency"@) {
                            Role::Dependency
                        } else {
                            Role::Explicit
                        },
                        None => Role::Explicit,
                    },
                    ..found("Pacman"@, name, name)
                },
                field_value(r, "Installed Size"@),
            ),
        ),
        None => None,
    }
}

pub open spec fn pacman_spec(records: Seq<KeyRecord>) -> Seq<(Found, Option<Seq<char>>)> {
    gather(records, |r: KeyRecord| pacman_entry(record_view(r)))
}

/// The installed packages of `pacman -Qi` records, each with the text of
/// its installed size.
pub fn pacman_inventory(records: &Vec<KeyRecord>) -> (r: Vec<(Match, Option<String>)>)
    ensures
        shows_paired(r@, pacman_spec(records@)),
{
    let ghost f = |r: KeyRecord| pacman_entry(record_view(r));
    let mut out: Vec<(Match, Option<String>)> = Vec::new();
    let dependency = chars_of("dependency");
    let mut i: usize = 0;
    assert(records@.take(0) =~= Seq::<KeyRecord>::empty());
    while i < records.len()
        invariant
            i <= records@.len(),
            dependency@ == "dependency"@,
            f == (|r: KeyRecord| pacman_entry(record_view(r))),
            shows_paired(out@, gather(records@.take(i as int), f)),
        decreases records@.len() - i,
    {
        let ghost before = records@.take(i as int);
        proof {
            assert(records@.take(i + 1) =~= before.push(records@[i as int]));
            lemma_gather_push(before, records@[i as int], f);
        }
        let r = &records[i];
        match r.get("Name") {
            Some(name) => {
                let nc = chars_of(name.as_str());
                let mut m = fresh("Pacman", &nc, &nc);
                m.version = get_or_empty(r, "Version");
                m.summary = get_or_empty(r, "Description");
                m.role = match r.get("Install Reason") {
                    Some(why) => {
                        let lower = ascii_lower_chars(&chars_of(why.as_str()));
                        if contains_chars(&lower, &dependency) {
                            Role::Dependency
                        } else {
                            Role::Explicit
                        }
                    },
                    None => Role::Explicit,
                };
                let size = r.get("Installed Size");
                proof {
                    lemma_paired_push(out@, gather(before, f), (m, size), f(records@[i as int])->Some_0);
                }
                out.push((m, size));
            },
            None => {},
        }
        i = i + 1;
    }
    assert(records@.take(records@.len() as int) =~= records@);
    out
}

// ---------------------------------------------------------------------------
// RPM
// ---------------------------------------------------------------------------

/// Whether a package name is among the layered packages that rpm-ostree
/// reports (compared by package base).
pub open spec fn layered_contains(layered: Seq<Seq<char>>, name: Seq<char>) -> bool {
    exists|j: int| 0 <= j < layered.len() && package_base_spec(#[trigger] layered[j]) == name
}

/// A line of the RPM inventory (`P`, name, version-release, summary, size
/// and architecture, tab-separated): an installed package, unless the
/// system is image-based and it is not a layered package.
pub open spec fn rpm_entry(kind: Seq<char>, layered: Option<Seq<Seq<char>>>, line: Seq<char>) -> Option<Found> {
    let p = splitn_on(line, '\t', 6);
    if p.len() == 6 && p[0] == "P"@ && (match layered {
        Some(l) => layered_contains(l, p[1]),
        None => true,
    }) {
        Some(
            Found {
                version: p[2],
                summary: p[3],
                size: unsigned_value(p[4], u64::MAX as nat),
                architecture: p[5],
                role: if kind == "RPM-OSTree"@ {
                    Role::Explicit
                } else {
                    Role::Unknown
                },
                ..found(
                    kind,
                    if p[5].len() == 0 {
                        p[1]
                    } else {
                        p[1] + seq!['.'] + p[5]
                    },
                    p[1],
                )
            },
        )
    } else {
        None
    }
}

pub open spec fn rpm_spec(text: Seq<char>, kind: Seq<char>, layered: Option<Seq<Seq<char>>>) -> Seq<Found> {
    gather(lines_spec(text), |l: Seq<char>| rpm_entry(kind, layered, l))
}

fn is_layered(layered: &Vec<String>, name: &[char]) -> (b: bool)
    ensures
        b == layered_contains(texts(layered@), name@),
{
    let target = string_of(name);
    let mut j: usize = 0;
    while j < layered.len()
        invariant
            j <= layered@.len(),
            target@ == name@,
            forall|k: int| 0 <= k < j ==> package_base_spec(#[trigger] texts(layered@)[k]) != name@,
        decreases layered@.len() - j,
    {
        let base = package_base(layered[j].as_str());
        if str_eq(base.as_str(), target.as_str()) {
            assert(package_base_spec(texts(layered@)[j as int]) == name@);
            return true;
        }
        j = j + 1;
    }
    false
}

/// The installed packages of an RPM inventory, found by the RPM front end
/// `kind`; on an image-based system, `layered` holds the requested layered
/// packages and only those are kept.
pub fn rpm_inventory(text: &str, kind: &str, layered: &Option<Vec<String>>) -> (r: Vec<Match>)
    ensures
        shows_all(
            r@,
            rpm_spec(
                text@,
                kind@,
                match layered {
                    Some(l) => Some(texts(l@)),
                    None => None,
                },
            ),
        ),
{
    let ghost lv = match layered {
        Some(l) => Some(texts(l@)),
        None => None::<Seq<Seq<char>>>,
    };
    let lines = lines_of(&chars_of(text));
    let ghost ls = deep(lines@);
    let ghost f = |l: Seq<char>| rpm_entry(kind@, lv, l);
    let ostree = str_eq(kind, "RPM-OSTree");
    let mut out: Vec<Match> = Vec::new();
    let n = lines.len();
    let mut i: usize = 0;
    assert(ls.take(0) =~= Seq::<Seq<char>>::empty());
    while i < n
        invariant
            i <= n,
            n == lines@.len(),
            ls == deep(lines@),
            ostree == (kind@ == "RPM-OSTree"@),
            lv == (match layered {
                Some(l) => Some(texts(l@)),
                None => None::<Seq<Seq<char>>>,
            }),
            f == (|l: Seq<char>| rpm_entry(kind@, lv, l)),
            shows_all(out@, gather(ls.take(i as int), f)),
        decreases n - i,
    {
        let p = splitn_chars(&lines[i], '\t', 6);
        let ghost before = ls.take(i as int);
        proof {
            assert(ls.take(i + 1) =~= before.push(ls[i as int]));
            lemma_gather_push(before, ls[i as int], f);
            assert(ls[i as int] == lines@[i as int]@);
        }
        if p.len() == 6 {
            let tag = string_of(&p[0]);
            let kept = match layered {
                Some(l) => is_layered(l, &p[1]),
                None => true,
            };
            if str_eq(tag.as_str(), "P") && kept {
                let mut id = string_of(&p[1]);
                if p[5].len() > 0 {
                    push_char(&mut id, '.');
                    push_chars(&mut id, &p[5]);
                }
                let idc = chars_of(id.as_str());
                let mut m = fresh(kind, &idc, &p[1]);
                m.version = string_of(&p[2]);
                m.summary = string_of(&p[3]);
                let size_text = string_of(&p[4]);
                m.installed_size_bytes = parse_u64(size_text.as_str());
                m.architecture = string_of(&p[5]);
                if ostree {
                    m.role = Role::Explicit;
                }
                proof {
                    let q = splitn_on(ls[i as int], '\t', 6);
                    assert(q == deep(p@));
                    assert(q[0] == p@[0]@);
                    assert(q[1] == p@[1]@);
                    assert(q[2] == p@[2]@);
                    assert(q[3] == p@[3]@);
                    assert(q[4] == p@[4]@);
                    assert(q[5] == p@[5]@);
                    assert(q[0] == "P"@);
                    match lv {
                        Some(l) => assert(layered_contains(l, q[1])),
                        None => {},
                    }
                    assert(m.id@ == (if q[5].len() == 0 { q[1] } else { q[1] + seq!['.'] + q[5] }));
                    lemma_shows_push(out@, gather(before, f), m, f(ls[i as int])->Some_0);
                }
                out.push(m);
            }
        }
        i = i + 1;
    }
    assert(ls.take(n as int) =~= ls);
    out
}

pub open spec fn rpm_relevant(query: Seq<char>, m: Match) -> Option<Match> {
    if relevant_spec(query, seq![m.name@, m.summary@]) || exact_spec(query, m.id@) {
        Some(m)
    } else {
        None
    }
}

pub open spec fn rpm_exact(query: Seq<char>, m: Match) -> Option<Match> {
    if exact_spec(query, m.id@) {
        Some(m)
    } else {
        None
    }
}

/// The RPM packages relevant to a query: those whose name or summary is
/// relevant or whose id is exactly the query; when some id is exactly the
/// query, only those.
pub open spec fn rpm_matches_spec(items: Seq<Match>, query: Seq<char>) -> Seq<Match> {
    let kept = gather(items, |m: Match| rpm_relevant(query, m));
    if exists|j: int| 0 <= j < kept.len() && exact_spec(query, #[trigger] kept[j].id@) {
        gather(kept, |m: Match| rpm_exact(query, m))
    } else {
        kept
    }
}

pub fn rpm_matches(items: &Vec<Match>, query: &str) -> (r: Vec<Match>)
    ensures
        r@ == rpm_matches_spec(items@, query@),
{
    let matcher = QueryMatcher::new(query);
    let ghost f = |m: Match| rpm_relevant(query@, m);
    let mut kept: Vec<Match> = Vec::new();
    let mut any_exact = false;
    let mut i: usize = 0;
    assert(items@.take(0) =~= Seq::<Match>::empty());
    while i < items.len()
        invariant
            i <= items@.len(),
            matcher.query_view() == query@,
            f == (|m: Match| rpm_relevant(query@, m)),
            kept@ == gather(items@.take(i as int), f),
            any_exact == exists|j: int| 0 <= j < kept@.len() && exact_spec(query@, #[trigger] kept@[j].id@),
        decreases items@.len() - i,
    {
        proof {
            assert(items@.take(i + 1) =~= items@.take(i as int).push(items@[i as int]));
            lemma_gather_push(items@.take(i as int), items@[i as int], f);
        }
        let name = chars_of(items[i].name.as_str());
        let summary = chars_of(items[i].summary.as_str());
        let ex = matcher.exact(items[i].id.as_str());
        if relevant_either(query, &name, &summary) || ex {
            let ghost prev = kept@;
            kept.push(items[i].duplicate());
            proof {
                if any_exact {
                    let j = choose|j: int| 0 <= j < prev.len() && exact_spec(query@, #[trigger] prev[j].id@);
                    assert(kept@[j] == prev[j]);
                }
                if !any_exact && !ex {
                    assert forall|j: int| 0 <= j < kept@.len() implies !exact_spec(query@, #[trigger] kept@[j].id@) by {
                        if j < prev.len() {
                            assert(kept@[j] == prev[j]);
                        }
                    }
                }
                if ex {
                    assert(exact_spec(query@, kept@[prev.len() as int].id@));
                }
            }
            any_exact = any_exact || ex;
        }
        i = i + 1;
    }
    assert(items@.take(items@.len() as int) =~= items@);
    if !any_exact {
        return kept;
    }
    let ghost g = |m: Match| rpm_exact(query@, m);
    let mut out: Vec<Match> = Vec::new();
    let mut k: usize = 0;
    assert(kept@.take(0) =~= Seq::<Match>::empty());
    while k < kept.len()
        invariant
            k <= kept@.len(),
            matcher.query_view() == query@,
            g == (|m: Match| rpm_exact(query@, m)),
            out@ == gather(kept@.take(k as int), g),
        decreases kept@.len() - k,
    {
        proof {
            assert(kept@.take(k + 1) =~= kept@.take(k as int).push(kept@[k as int]));
            lemma_gather_push(kept@.take(k as int), kept@[k as int], g);
        }
        if matcher.exact(kept[k].id.as_str()) {
            out.push(kept[k].duplicate());
        }
        k = k + 1;
    }
    assert(kept@.take(kept@.len() as int) =~= kept@);
    out
}

// ---------------------------------------------------------------------------
// Slackware and Portage
// ---------------------------------------------------------------------------

/// The pattern of a Slackware package file name: name, version,
/// architecture and build.
pub open spec fn slackware_pattern() -> Seq<char> {
    "^(.+)-([^-]+)-([^-]+)-([^-]+)$"@
}

pub open spec fn slackware_entry(query: Seq<char>, package: Seq<char>) -> Option<Found> {
    let (name, version) = match regex_pair(slackware_pattern(), package) {
        Some(p) => p,
        None => (package, Seq::empty()),
    };
    if relevant_spec(query, seq![name]) {
        Some(Found { version, ..found("Slackware"@, name, name) })
    } else {
        None
    }
}

pub open spec fn slackware_spec(packages: Seq<Seq<char>>, query: Seq<char>) -> Seq<Found> {
    gather(packages, |p: Seq<char>| slackware_entry(query, p))
}

/// The packages of `/var/log/packages` (given by file name) that are
/// relevant to the query.
pub fn slackware_listing(packages: &Vec<String>, query: &str) -> (r: Vec<Match>)
    ensures
        shows_all(r@, slackware_spec(texts(packages@), query@)),
{
    let ghost ps = texts(packages@);
    let ghost f = |p: Seq<char>| slackware_entry(query@, p);
    let mut out: Vec<Match> = Vec::new();
    let mut i: usize = 0;
    assert(ps.take(0) =~= Seq::<Seq<char>>::empty());
    while i < packages.len()
        invariant
            i <= packages@.len(),
            ps == texts(packages@),
            f == (|p: Seq<char>| slackware_entry(query@, p)),
            shows_all(out@, gather(ps.take(i as int), f)),
        decreases packages@.len() - i,
    {
        let ghost before = ps.take(i as int);
        proof {
            assert(ps.take(i + 1) =~= before.push(ps[i as int]));
            lemma_gather_push(before, ps[i as int], f);
        }
        let (name, version) = match capture_pair("^(.+)-([^-]+)-([^-]+)-([^-]+)$", packages[i].as_str()) {
            Some(p) => p,
            None => (packages[i].clone(), String::new()),
        };
        let nc = chars_of(name.as_str());
        if relevant_to(query, &nc) {
            let mut m = fresh("Slackware", &nc, &nc);
            m.version = version;
            proof {
                lemma_shows_push(out@, gather(before, f), m, f(ps[i as int])->Some_0);
            }
            out.push(m);
        }
        i = i + 1;
    }
    assert(ps.take(packages@.len() as int) =~= ps);
    out
}

/// What the files of one Portage package directory say.
pub struct PortageFiles {
    pub category: String,
    pub pn: String,
    pub description: String,
    pub pvr: String,
    pub repository: String,
    pub size: String,
}

/// A Portage package: its category and trimmed name form the id; it is
/// explicit when the world file names it and a dependency otherwise, and
/// user-scoped when the Portage prefix lies in the home directory.
pub open spec fn portage_entry(
    files: PortageFiles,
    world: Seq<char>,
    prefix: Seq<char>,
    home: Seq<char>,
    query: Seq<char>,
) -> Option<Found> {
    let name = trim_spec(files.pn@);
    let id = files.category@ + seq!['/'] + name;
    let summary = trim_spec(files.description@);
    if name.len() > 0 && relevant_spec(query, seq![id, name, summary]) {
        Some(
            Found {
                version: trim_spec(files.pvr@),
                summary,
                origin: trim_spec(files.repository@),
                size: unsigned_value(trim_spec(files.size@), u64::MAX as nat),
                role: if world_contains_spec(world, id) {
                    Role::Explicit
                } else {
                    Role::Dependency
                },
                scope: if path_within_spec(prefix, home) {
                    "user"@
                } else {
                    "system"@
                },
                ..found("Portage"@, id, name)
            },
        )
    } else {
        None
    }
}

/// The installed Portage package that a package directory describes, when
/// it is relevant to the query.
pub fn portage_package(files: &PortageFiles, world: &str, prefix: &str, home: &str, query: &str) -> (r:
    Option<Match>)
    ensures
        match r {
            Some(m) => portage_entry(*files, world@, prefix@, home@, query@) matches Some(f) && shows(m, f),
            None => portage_entry(*files, world@, prefix@, home@, query@) is None,
        },
{
    let name = trim_chars(&chars_of(files.pn.as_str()));
    if name.len() == 0 {
        return None;
    }
    let mut id = files.category.clone();
    push_char(&mut id, '/');
    push_chars(&mut id, &name);
    let summary = trim_chars(&chars_of(files.description.as_str()));
    let ns = string_of(&name);
    let ss = string_of(&summary);
    let values = [id.as_str(), ns.as_str(), ss.as_str()];
    let hit = relevant(query, &values);
    assert(views(values@) =~= seq![id@, name@, summary@]);
    assert(id@ == files.category@ + seq!['/'] + trim_spec(files.pn@));
    if !hit {
        return None;
    }
    let idc = chars_of(id.as_str());
    let mut m = fresh("Portage", &idc, &name);
    m.version = string_of(&trim_chars(&chars_of(files.pvr.as_str())));
    m.summary = ss;
    m.origin = string_of(&trim_chars(&chars_of(files.repository.as_str())));
    let size_text = string_of(&trim_chars(&chars_of(files.size.as_str())));
    m.installed_size_bytes = parse_u64(size_text.as_str());
    m.role = if portage_world_contains(world, id.as_str()) {
        Role::Explicit
    } else {
        Role::Dependency
    };
    m.scope = if path_within(prefix, home) {
        owned("user")
    } else {
        owned("system")
    };
    Some(m)
}

// ---------------------------------------------------------------------------
// Separators of more than one character
// ---------------------------------------------------------------------------

/// The first position at or after `i` where `sep` occurs in `s`, or the
/// length of `s` when it occurs nowhere there.
pub open spec fn first_from(s: Seq<char>, sep: Seq<char>, i: int) -> int
    decreases s.len() - i,
{
    if i < 0 || i + sep.len() > s.len() {
        s.len() as int
    } else if sep.len() == 0 || s.subrange(i, i + sep.len()) == sep {
        i
    } else {
        first_from(s, sep, i + 1)
    }
}

/// `str::split_once` on a separator.
pub open spec fn split_once_seq(s: Seq<char>, sep: Seq<char>) -> Option<(Seq<char>, Seq<char>)> {
    let i = first_from(s, sep, 0);
    if i + sep.len() <= s.len() {
        Some((s.take(i), s.skip(i + sep.len())))
    } else {
        None
    }
}

/// `str::split` on a non-empty separator.
pub open spec fn split_seq(s: Seq<char>, sep: Seq<char>) -> Seq<Seq<char>>
    decreases s.len(),
{
    let i = first_from(s, sep, 0);
    if sep.len() > 0 && 0 <= i && i + sep.len() <= s.len() {
        seq![s.take(i)] + split_seq(s.skip(i + sep.len()), sep)
    } else {
        seq![s]
    }
}

proof fn lemma_first_from_bounds(s: Seq<char>, sep: Seq<char>, i: int)
    requires
        0 <= i,
    ensures
        i <= first_from(s, sep, i) <= s.len() || first_from(s, sep, i) == s.len(),
        first_from(s, sep, i) + sep.len() <= s.len() ==> s.subrange(
            first_from(s, sep, i),
            first_from(s, sep, i) + sep.len(),
        ) == sep,
    decreases s.len() - i,
{
    if i + sep.len() <= s.len() && sep.len() > 0 && s.subrange(i, i + sep.len()) != sep {
        lemma_first_from_bounds(s, sep, i + 1);
    }
}

fn occurs_here(s: &[char], sep: &[char], i: usize) -> (b: bool)
    requires
        i + sep@.len() <= s@.len(),
    ensures
        b == (s@.subrange(i as int, i + sep@.len()) == sep@),
{
    let n = s.len();
    let mut k: usize = 0;
    while k < sep.len()
        invariant
            k <= sep@.len(),
            n == s@.len(),
            i + sep@.len() <= s@.len(),
            forall|x: int| 0 <= x < k ==> s@[i + x] == sep@[x],
        decreases sep@.len() - k,
    {
        assert(i + k < s@.len());
        if s[i + k] != sep[k] {
            assert(s@.subrange(i as int, i + sep@.len())[k as int] != sep@[k as int]);
            return false;
        }
        k = k + 1;
    }
    assert(s@.subrange(i as int, i + sep@.len()) =~= sep@);
    true
}

fn find_seq(s: &[char], sep: &[char]) -> (r: usize)
    ensures
        r == first_from(s@, sep@, 0),
{
    let n = s.len();
    let m = sep.len();
    if m == 0 {
        return 0;
    }
    let mut i: usize = 0;
    while i < n && n - i >= m
        invariant
            i <= n,
            m > 0,
            n == s@.len(),
            m == sep@.len(),
            first_from(s@, sep@, 0) == first_from(s@, sep@, i as int),
        decreases n - i,
    {
        if occurs_here(s, sep, i) {
            return i;
        }
        i = i + 1;
    }
    n
}

pub(crate) fn split_once_on(s: &[char], sep: &[char]) -> (r: Option<(Vec<char>, Vec<char>)>)
    ensures
        match r {
            Some((a, b)) => split_once_seq(s@, sep@) == Some((a@, b@)),
            None => split_once_seq(s@, sep@) is None,
        },
{
    let i = find_seq(s, sep);
    proof {
        lemma_first_from_bounds(s@, sep@, 0);
    }
    if i <= s.len() && s.len() - i >= sep.len() {
        let a = slice_chars(s, 0, i);
        let b = slice_chars(s, i + sep.len(), s.len());
        assert(a@ =~= s@.take(i as int));
        assert(b@ =~= s@.skip(i + sep@.len()));
        Some((a, b))
    } else {
        None
    }
}

fn split_on_seq(s: &[char], sep: &[char]) -> (r: Vec<Vec<char>>)
    requires
        sep@.len() > 0,
    ensures
        deep(r@) == split_seq(s@, sep@),
    decreases s@.len(),
{
    let i = find_seq(s, sep);
    proof {
        lemma_first_from_bounds(s@, sep@, 0);
    }
    if i <= s.len() && s.len() - i >= sep.len() {
        let head = slice_chars(s, 0, i);
        let rest = slice_chars(s, i + sep.len(), s.len());
        assert(rest@ =~= s@.skip(i + sep@.len()));
        let tail = split_on_seq(&rest, sep);
        let mut out: Vec<Vec<char>> = Vec::new();
        out.push(head);
        let mut j: usize = 0;
        while j < tail.len()
            invariant
                j <= tail@.len(),
                out@.len() == j + 1,
                out@[0]@ == s@.take(i as int),
                forall|k: int| 0 <= k < j ==> #[trigger] out@[k + 1]@ == tail@[k]@,
            decreases tail@.len() - j,
        {
            out.push(copy_chars(&tail[j]));
            j = j + 1;
        }
        let ghost want = seq![s@.take(i as int)] + deep(tail@);
        assert forall|k: int| 0 <= k < want.len() implies deep(out@)[k] == want[k] by {
            if k > 0 {
                assert(out@[(k - 1) + 1]@ == tail@[k - 1]@);
            }
        }
        assert(deep(out@) =~= want);
        out
    } else {
        let mut out: Vec<Vec<char>> = Vec::new();
        out.push(copy_chars(s));
        assert(deep(out@) =~= seq![s@]);
        out
    }
}

/// The fields of a block of `key<sep>value` lines, in order.
pub open spec fn block_fields(block: Seq<char>, sep: Seq<char>) -> Seq<(Seq<char>, Seq<char>)> {
    gather(lines_spec(block), |l: Seq<char>| split_once_seq(l, sep))
}

fn block_record(block: &[char], sep: &[char]) -> (r: KeyRecord)
    ensures
        record_view(r) == block_fields(block@, sep@),
{
    let lines = lines_of(block);
    let ghost ls = deep(lines@);
    let ghost f = |l: Seq<char>| split_once_seq(l, sep@);
    let mut fields: Vec<(String, String)> = Vec::new();
    let n = lines.len();
    let mut i: usize = 0;
    assert(ls.take(0) =~= Seq::<Seq<char>>::empty());
    assert(fields@.map_values(|f: (String, String)| (f.0@, f.1@)) =~= Seq::<(Seq<char>, Seq<char>)>::empty());
    while i < n
        invariant
            i <= n,
            n == lines@.len(),
            ls == deep(lines@),
            f == (|l: Seq<char>| split_once_seq(l, sep@)),
            fields@.map_values(|f: (String, String)| (f.0@, f.1@)) == gather(ls.take(i as int), f),
        decreases n - i,
    {
        let ghost before = ls.take(i as int);
        proof {
            assert(ls.take(i + 1) =~= before.push(ls[i as int]));
            lemma_gather_push(before, ls[i as int], f);
            assert(ls[i as int] == lines@[i as int]@);
        }
        match split_once_on(&lines[i], sep) {
            Some((k, v)) => {
                let ghost prev = fields@;
                fields.push((string_of(&k), string_of(&v)));
                assert(fields@.map_values(|f: (String, String)| (f.0@, f.1@)) =~= prev.map_values(
                    |f: (String, String)| (f.0@, f.1@),
                ).push((k@, v@)));
            },
            None => {},
        }
        i = i + 1;
    }
    assert(ls.take(n as int) =~= ls);
    KeyRecord { fields }
}

fn value_of(r: &KeyRecord, key: &str) -> (v: String)
    ensures
        v@ == value_or_empty(record_view(*r), key@),
{
    get_or_empty(r, key)
}

/// Whether a name is in a list.
pub open spec fn listed(names: Seq<Seq<char>>, name: Seq<char>) -> bool {
    exists|j: int| 0 <= j < names.len() && #[trigger] names[j] == name
}

pub(crate) fn is_listed(names: &Vec<String>, name: &[char]) -> (b: bool)
    ensures
        b == listed(texts(names@), name@),
{
    let target = string_of(name);
    let mut j: usize = 0;
    while j < names.len()
        invariant
            j <= names@.len(),
            target@ == name@,
            forall|k: int| 0 <= k < j ==> #[trigger] texts(names@)[k] != name@,
        decreases names@.len() - j,
    {
        if str_eq(names[j].as_str(), target.as_str()) {
            assert(texts(names@)[j as int] == name@);
            return true;
        }
        j = j + 1;
    }
    false
}

// ---------------------------------------------------------------------------
// APK
// ---------------------------------------------------------------------------

pub open spec fn is_constraint_char(c: char) -> bool {
    c == '<' || c == '>' || c == '=' || c == '~' || c == '@'
}

/// The first position of a version-constraint character, or the length.
pub open spec fn constraint_index(s: Seq<char>) -> int
    decreases s.len(),
{
    if s.len() == 0 {
        0
    } else if is_constraint_char(s.last()) && constraint_index(s.drop_last()) == s.len() - 1 {
        s.len() - 1
    } else if constraint_index(s.drop_last()) < s.len() - 1 {
        constraint_index(s.drop_last())
    } else {
        s.len() as int
    }
}

/// A line of `/etc/apk/world` names a package before any version
/// constraint; blank lines and comments name none.
pub open spec fn world_entry(line: Seq<char>) -> Option<Seq<char>> {
    if trim_spec(line).len() == 0 || (line.len() > 0 && line[0] == '#') {
        None
    } else {
        Some(line.take(constraint_index(line)))
    }
}

pub open spec fn apk_world_spec(world: Seq<char>) -> Seq<Seq<char>> {
    gather(lines_spec(world), |l: Seq<char>| world_entry(l))
}

fn constraint_at(s: &[char]) -> (r: usize)
    ensures
        r == constraint_index(s@),
        r <= s@.len(),
{
    let mut i: usize = 0;
    let mut found: usize = 0;
    let mut seen = false;
    assert(s@.take(0) =~= Seq::<char>::empty());
    while i < s.len()
        invariant
            i <= s@.len(),
            seen ==> found < i,
            (if seen {
                found as int
            } else {
                i as int
            }) == constraint_index(s@.take(i as int)),
        decreases s@.len() - i,
    {
        proof {
            assert(s@.take(i + 1).drop_last() =~= s@.take(i as int));
            assert(s@.take(i + 1).last() == s@[i as int]);
        }
        let c = s[i];
        if !seen && (c == '<' || c == '>' || c == '=' || c == '~' || c == '@') {
            seen = true;
            found = i;
        }
        i = i + 1;
    }
    assert(s@.take(s@.len() as int) =~= s@);
    if seen {
        found
    } else {
        s.len()
    }
}

/// The packages that `/etc/apk/world` asks for.
pub fn apk_world(world: &str) -> (r: Vec<String>)
    ensures
        texts(r@) == apk_world_spec(world@),
{
    let lines = lines_of(&chars_of(world));
    let ghost ls = deep(lines@);
    let ghost f = |l: Seq<char>| world_entry(l);
    let mut out: Vec<String> = Vec::new();
    let n = lines.len();
    let mut i: usize = 0;
    assert(ls.take(0) =~= Seq::<Seq<char>>::empty());
    assert(texts(out@) =~= Seq::<Seq<char>>::empty());
    while i < n
        invariant
            i <= n,
            n == lines@.len(),
            ls == deep(lines@),
            f == (|l: Seq<char>| world_entry(l)),
            texts(out@) == gather(ls.take(i as int), f),
        decreases n - i,
    {
        let ghost before = ls.take(i as int);
        proof {
            assert(ls.take(i + 1) =~= before.push(ls[i as int]));
            lemma_gather_push(before, ls[i as int], f);
            assert(ls[i as int] == lines@[i as int]@);
        }
        let line = &lines[i];
        let t = trim_chars(line);
        if t.len() > 0 && !(line.len() > 0 && line[0] == '#') {
            let k = constraint_at(line);
            let name = slice_chars(line, 0, k);
            let ghost prev = out@;
            out.push(string_of(&name));
            assert(texts(out@) =~= texts(prev).push(line@.take(k as int)));
        }
        i = i + 1;
    }
    assert(ls.take(n as int) =~= ls);
    out
}

/// A block of the installed-package database: a package (`P`), explicit
/// when the world file asks for it and a dependency otherwise.
pub open spec fn apk_entry(world: Seq<Seq<char>>, block: Seq<char>) -> Option<Found> {
    let r = block_fields(block, seq![':']);
    match field_value(r, seq!['P']) {
        Some(name) => Some(
            Found {
                version: value_or_empty(r, seq!['V']),
                summary: value_or_empty(r, seq!['T']),
                size: match field_value(r, seq!['I']) {
                    Some(t) => unsigned_value(t, u64::MAX as nat),
                    None => None,
                },
                origin: value_or_empty(r, seq!['o']),
                role: if listed(world, name) {
                    Role::Explicit
                } else {
                    Role::Dependency
                },
                ..found("APK"@, name, name)
            },
        ),
        None => None,
    }
}

pub open spec fn apk_spec(installed: Seq<char>, world: Seq<Seq<char>>) -> Seq<Found> {
    gather(split_seq(installed, seq!['\n', '\n']), |b: Seq<char>| apk_entry(world, b))
}

/// The packages of APK's installed-package database; `world` holds the
/// packages that `/etc/apk/world` asks for.
pub fn apk_inventory(installed: &str, world: &Vec<String>) -> (r: Vec<Match>)
    ensures
        shows_all(r@, apk_spec(installed@, texts(world@))),
{
    let sep = chars_of("\n\n");
    proof {
        reveal_strlit("\n\n");
    }
    assert(sep@ =~= seq!['\n', '\n']);
    let colon = one_colon();
    let blocks = split_on_seq(&chars_of(installed), &sep);
    let ghost bs = deep(blocks@);
    let ghost wv = texts(world@);
    let ghost f = |b: Seq<char>| apk_entry(wv, b);
    let mut out: Vec<Match> = Vec::new();
    let n = blocks.len();
    let mut i: usize = 0;
    assert(bs.take(0) =~= Seq::<Seq<char>>::empty());
    while i < n
        invariant
            i <= n,
            n == blocks@.len(),
            bs == deep(blocks@),
            colon@ == seq![':'],
            wv == texts(world@),
            f == (|b: Seq<char>| apk_entry(wv, b)),
            shows_all(out@, gather(bs.take(i as int), f)),
        decreases n - i,
    {
        let ghost before = bs.take(i as int);
        proof {
            assert(bs.take(i + 1) =~= before.push(bs[i as int]));
            lemma_gather_push(before, bs[i as int], f);
            assert(bs[i as int] == blocks@[i as int]@);
        }
        let r = block_record(&blocks[i], &colon);
        match r.get("P") {
            Some(name) => {
                proof {
                    reveal_strlit("P");
                    reveal_strlit("V");
                    reveal_strlit("T");
                    reveal_strlit("I");
                    reveal_strlit("o");
                }
                let nc = chars_of(name.as_str());
                let mut m = fresh("APK", &nc, &nc);
                m.version = value_of(&r, "V");
                m.summary = value_of(&r, "T");
                m.installed_size_bytes = match r.get("I") {
                    Some(t) => parse_u64(t.as_str()),
                    None => None,
                };
                m.origin = value_of(&r, "o");
                m.role = if is_listed(world, &nc) {
                    Role::Explicit
                } else {
                    Role::Dependency
                };
                proof {
                    assert("P"@ =~= seq!['P']);
                    assert("V"@ =~= seq!['V']);
                    assert("T"@ =~= seq!['T']);
                    assert("I"@ =~= seq!['I']);
                    assert("o"@ =~= seq!['o']);
                    lemma_shows_push(out@, gather(before, f), m, f(bs[i as int])->Some_0);
                }
                out.push(m);
            },
            None => {
                proof {
                    reveal_strlit("P");
                    assert("P"@ =~= seq!['P']);
                }
            },
        }
        i = i + 1;
    }
    assert(bs.take(n as int) =~= bs);
    out
}

fn one_colon() -> (r: Vec<char>)
    ensures
        r@ == seq![':'],
{
    let mut v: Vec<char> = Vec::new();
    v.push(':');
    v
}

/// The pattern of an `apk info --verbose` line: name and version-release.
pub open spec fn apk_verbose_pattern() -> Seq<char> {
    "^(.+)-([0-9][^\\s]*-r\\d+)$"@
}

pub open spec fn apk_verbose_entry(line: Seq<char>) -> Option<Found> {
    match regex_pair(apk_verbose_pattern(), trim_spec(line)) {
        Some((name, version)) => Some(Found { version, ..found("APK"@, name, name) }),
        None => None,
    }
}

pub open spec fn apk_verbose_spec(text: Seq<char>) -> Seq<Found> {
    gather(lines_spec(text), |l: Seq<char>| apk_verbose_entry(l))
}

/// The packages of `apk info --verbose`, used when the installed-package
/// database cannot be read.
pub fn apk_verbose(text: &str) -> (r: Vec<Match>)
    ensures
        shows_all(r@, apk_verbose_spec(text@)),
{
    let lines = lines_of(&chars_of(text));
    let ghost ls = deep(lines@);
    let ghost f = |l: Seq<char>| apk_verbose_entry(l);
    let mut out: Vec<Match> = Vec::new();
    let n = lines.len();
    let mut i: usize = 0;
    assert(ls.take(0) =~= Seq::<Seq<char>>::empty());
    while i < n
        invariant
            i <= n,
            n == lines@.len(),
            ls == deep(lines@),
            f == (|l: Seq<char>| apk_verbose_entry(l)),
            shows_all(out@, gather(ls.take(i as int), f)),
        decreases n - i,
    {
        let ghost before = ls.take(i as int);
        proof {
            assert(ls.take(i + 1) =~= before.push(ls[i as int]));
            lemma_gather_push(before, ls[i as int], f);
            assert(ls[i as int] == lines@[i as int]@);
        }
        let t = string_of(&trim_chars(&lines[i]));
        match capture_pair("^(.+)-([0-9][^\\s]*-r\\d+)$", t.as_str()) {
            Some((name, version)) => {
                let nc = chars_of(name.as_str());
                let mut m = fresh("APK", &nc, &nc);
                m.version = version;
                proof {
                    lemma_shows_push(out@, gather(before, f), m, f(ls[i as int])->Some_0);
                }
                out.push(m);
            },
            None => {},
        }
        i = i + 1;
    }
    assert(ls.take(n as int) =~= ls);
    out
}

// ---------------------------------------------------------------------------
// OPKG
// ---------------------------------------------------------------------------

/// A block of an OPKG status file: an installed package (`Package` whose
/// `Status` says installed), a dependency when it was installed
/// automatically and explicit otherwise.
pub open spec fn opkg_entry(block: Seq<char>) -> Option<Found> {
    let r = block_fields(block, ": "@);
    match field_value(r, "Package"@) {
        Some(name) => if (match field_value(r, "Status"@) {
            Some(st) => contains_seq(st, "installed"@),
            None => false,
        }) {
            Some(
                Found {
                    version: value_or_empty(r, "Version"@),
                    summary: value_or_empty(r, "Description"@),
                    size: match field_value(r, "Installed-Size"@) {
                        Some(t) => unsigned_value(t, u64::MAX as nat),
                        None => None,
                    },
                    role: if field_value(r, "Auto-Installed"@) == Some("yes"@) {
                        Role::Dependency
                    } else {
                        Role::Explicit
                    },
                    ..found("OPKG"@, name, name)
                },
            )
        } else {
            None
        },
        None => None,
    }
}

pub open spec fn opkg_status_spec(status: Seq<char>) -> Seq<Found> {
    gather(split_seq(status, seq!['\n', '\n']), |b: Seq<char>| opkg_entry(b))
}

fn two_newlines() -> (r: Vec<char>)
    ensures
        r@ == seq!['\n', '\n'],
{
    let mut v: Vec<char> = Vec::new();
    v.push('\n');
    v.push('\n');
    v
}

/// The installed packages of an OPKG status file.
pub fn opkg_status(status: &str) -> (r: Vec<Match>)
    ensures
        shows_all(r@, opkg_status_spec(status@)),
{
    let sep = two_newlines();
    let colon = chars_of(": ");
    let installed = chars_of("installed");
    let blocks = split_on_seq(&chars_of(status), &sep);
    let ghost bs = deep(blocks@);
    let ghost f = |b: Seq<char>| opkg_entry(b);
    let mut out: Vec<Match> = Vec::new();
    let n = blocks.len();
    let mut i: usize = 0;
    assert(bs.take(0) =~= Seq::<Seq<char>>::empty());
    while i < n
        invariant
            i <= n,
            n == blocks@.len(),
            bs == deep(blocks@),
            colon@ == ": "@,
            installed@ == "installed"@,
            f == (|b: Seq<char>| opkg_entry(b)),
            shows_all(out@, gather(bs.take(i as int), f)),
        decreases n - i,
    {
        let ghost before = bs.take(i as int);
        proof {
            assert(bs.take(i + 1) =~= before.push(bs[i as int]));
            lemma_gather_push(before, bs[i as int], f);
            assert(bs[i as int] == blocks@[i as int]@);
        }
        let r = block_record(&blocks[i], &colon);
        match r.get("Package") {
            Some(name) => {
                let is_installed = match r.get("Status") {
                    Some(st) => contains_chars(&chars_of(st.as_str()), &installed),
                    None => false,
                };
                if is_installed {
                    let nc = chars_of(name.as_str());
                    let mut m = fresh("OPKG", &nc, &nc);
                    m.version = value_of(&r, "Version");
                    m.summary = value_of(&r, "Description");
                    m.installed_size_bytes = match r.get("Installed-Size") {
                        Some(t) => parse_u64(t.as_str()),
                        None => None,
                    };
                    let auto = match r.get("Auto-Installed") {
                        Some(v) => str_eq(v.as_str(), "yes"),
                        None => false,
                    };
                    m.role = if auto {
                        Role::Dependency
                    } else {
                        Role::Explicit
                    };
                    proof {
                        lemma_shows_push(out@, gather(before, f), m, f(bs[i as int])->Some_0);
                    }
                    out.push(m);
                }
            },
            None => {},
        }
        i = i + 1;
    }
    assert(bs.take(n as int) =~= bs);
    out
}

/// A line of `opkg list-installed` (`name - version - summary`).
pub open spec fn opkg_list_entry(line: Seq<char>) -> Option<Found> {
    match split_once_seq(line, " - "@) {
        Some((name, rest)) => {
            let (version, summary) = match split_once_seq(rest, " - "@) {
                Some(p) => p,
                None => (rest, Seq::empty()),
            };
            Some(Found { version, summary, ..found("OPKG"@, name, name) })
        },
        None => None,
    }
}

pub open spec fn opkg_list_spec(text: Seq<char>) -> Seq<Found> {
    gather(lines_spec(text), |l: Seq<char>| opkg_list_entry(l))
}

/// The packages of `opkg list-installed`, used when no status file can be
/// read.
pub fn opkg_list(text: &str) -> (r: Vec<Match>)
    ensures
        shows_all(r@, opkg_list_spec(text@)),
{
    let dash = chars_of(" - ");
    let lines = lines_of(&chars_of(text));
    let ghost ls = deep(lines@);
    let ghost f = |l: Seq<char>| opkg_list_entry(l);
    let mut out: Vec<Match> = Vec::new();
    let n = lines.len();
    let mut i: usize = 0;
    assert(ls.take(0) =~= Seq::<Seq<char>>::empty());
    while i < n
        invariant
            i <= n,
            n == lines@.len(),
            ls == deep(lines@),
            dash@ == " - "@,
            f == (|l: Seq<char>| opkg_list_entry(l)),
            shows_all(out@, gather(ls.take(i as int), f)),
        decreases n - i,
    {
        let ghost before = ls.take(i as int);
        proof {
            assert(ls.take(i + 1) =~= before.push(ls[i as int]));
            lemma_gather_push(before, ls[i as int], f);
            assert(ls[i as int] == lines@[i as int]@);
        }
        match split_once_on(&lines[i], &dash) {
            Some((name, rest)) => {
                let (version, summary) = match split_once_on(&rest, &dash) {
                    Some(p) => p,
                    None => (rest, Vec::new()),
                };
                let mut m = fresh("OPKG", &name, &name);
                m.version = string_of(&version);
                m.summary = string_of(&summary);
                proof {
                    lemma_shows_push(out@, gather(before, f), m, f(ls[i as int])->Some_0);
                }
                out.push(m);
            },
            None => {},
        }
        i = i + 1;
    }
    assert(ls.take(n as int) =~= ls);
    out
}

// ---------------------------------------------------------------------------
// XBPS
// ---------------------------------------------------------------------------

/// The package names of `xbps-query --list-manual-pkgs`.
pub open spec fn xbps_manual_spec(text: Seq<char>) -> Seq<Seq<char>> {
    lines_spec(text).map_values(|l: Seq<char>| xbps_split_spec(first_word(l)).0)
}

/// The packages installed by explicit request.
pub fn xbps_manual(text: &str) -> (r: Vec<String>)
    ensures
        texts(r@) == xbps_manual_spec(text@),
{
    let lines = lines_of(&chars_of(text));
    let mut out: Vec<String> = Vec::new();
    let mut i: usize = 0;
    while i < lines.len()
        invariant
            i <= lines@.len(),
            out@.len() == i,
            forall|k: int| 0 <= k < i ==> #[trigger] out@[k]@ == xbps_split_spec(first_word(lines@[k]@)).0,
        decreases lines@.len() - i,
    {
        let w = string_of(&first_word_of(&lines[i]));
        let (name, _version) = split_xbps(w.as_str());
        out.push(name);
        i = i + 1;
    }
    let ghost want = xbps_manual_spec(text@);
    assert forall|k: int| 0 <= k < want.len() implies texts(out@)[k] == want[k] by {
        assert(deep(lines@)[k] == lines@[k]@);
    }
    assert(texts(out@) =~= want);
    out
}

/// The first whitespace position, or the length.
pub open spec fn space_index(s: Seq<char>) -> int
    decreases s.len(),
{
    if s.len() == 0 {
        0
    } else if is_space_char(s[0]) {
        0
    } else {
        1 + space_index(s.drop_first())
    }
}

proof fn lemma_space_index(s: Seq<char>)
    ensures
        0 <= space_index(s) <= s.len(),
    decreases s.len(),
{
    if s.len() > 0 && !is_space_char(s[0]) {
        lemma_space_index(s.drop_first());
    }
}

fn find_space(s: &[char]) -> (r: usize)
    ensures
        r == space_index(s@),
{
    let mut i: usize = 0;
    assert(s@.skip(0) =~= s@);
    while i < s.len()
        invariant
            i <= s@.len(),
            space_index(s@) == i + space_index(s@.skip(i as int)),
        decreases s@.len() - i,
    {
        assert(s@.skip(i as int)[0] == s@[i as int]);
        if is_space(s[i]) {
            return i;
        }
        assert(s@.skip(i as int).drop_first() =~= s@.skip(i + 1));
        i = i + 1;
    }
    assert(s@.skip(i as int) =~= Seq::<char>::empty());
    i
}

/// `splitn(3, char::is_whitespace)` of a line, without the empty pieces.
pub open spec fn xbps_fields(line: Seq<char>) -> Seq<Seq<char>> {
    let i = space_index(line);
    if i >= line.len() {
        non_empty(seq![line])
    } else {
        let rest = line.skip(i + 1);
        let j = space_index(rest);
        if j >= rest.len() {
            non_empty(seq![line.take(i), rest])
        } else {
            non_empty(seq![line.take(i), rest.take(j), rest.skip(j + 1)])
        }
    }
}

fn keep_nonempty(parts: Vec<Vec<char>>) -> (r: Vec<Vec<char>>)
    ensures
        deep(r@) == non_empty(deep(parts@)),
{
    let mut out: Vec<Vec<char>> = Vec::new();
    let mut i: usize = 0;
    assert(deep(parts@).take(0) =~= Seq::<Seq<char>>::empty());
    assert(deep(out@) =~= Seq::<Seq<char>>::empty());
    while i < parts.len()
        invariant
            i <= parts@.len(),
            deep(out@) == non_empty(deep(parts@).take(i as int)),
        decreases parts@.len() - i,
    {
        proof {
            assert(deep(parts@).take(i + 1).drop_last() =~= deep(parts@).take(i as int));
            assert(deep(parts@).take(i + 1).last() == parts@[i as int]@);
        }
        if parts[i].len() > 0 {
            let ghost prev = out@;
            out.push(copy_chars(&parts[i]));
            assert(deep(out@) =~= deep(prev).push(parts@[i as int]@));
        }
        i = i + 1;
    }
    assert(deep(parts@).take(parts@.len() as int) =~= deep(parts@));
    out
}

fn xbps_split_fields(line: &[char]) -> (r: Vec<Vec<char>>)
    ensures
        deep(r@) == xbps_fields(line@),
{
    let i = find_space(line);
    proof {
        lemma_space_index(line@);
    }
    let mut parts: Vec<Vec<char>> = Vec::new();
    if i >= line.len() {
        parts.push(copy_chars(line));
        assert(deep(parts@) =~= seq![line@]);
    } else {
        let rest = slice_chars(line, i + 1, line.len());
        assert(rest@ =~= line@.skip(i + 1));
        let j = find_space(&rest);
        proof {
            lemma_space_index(rest@);
        }
        parts.push(slice_chars(line, 0, i));
        if j >= rest.len() {
            parts.push(copy_chars(&rest));
            assert(deep(parts@) =~= seq![line@.take(i as int), rest@]);
        } else {
            parts.push(slice_chars(&rest, 0, j));
            parts.push(slice_chars(&rest, j + 1, rest.len()));
            assert(deep(parts@) =~= seq![line@.take(i as int), rest@.take(j as int), rest@.skip(j + 1)]);
        }
    }
    keep_nonempty(parts)
}

/// A line of `xbps-query --list-pkgs` (`ii name-version_revision
/// summary`): an installed package, explicit when it was installed by
/// request and a dependency otherwise.
pub open spec fn xbps_entry(manual: Seq<Seq<char>>, line: Seq<char>) -> Option<Found> {
    let p = xbps_fields(line);
    if p.len() >= 2 && p[0] == "ii"@ {
        let (name, version) = xbps_split_spec(p[1]);
        Some(
            Found {
                version,
                summary: piece(p, 2),
                role: if listed(manual, name) {
                    Role::Explicit
                } else {
                    Role::Dependency
                },
                ..found("XBPS"@, name, name)
            },
        )
    } else {
        None
    }
}

pub open spec fn xbps_spec(text: Seq<char>, manual: Seq<Seq<char>>) -> Seq<Found> {
    gather(lines_spec(text), |l: Seq<char>| xbps_entry(manual, l))
}

/// The installed packages of `xbps-query --list-pkgs`; `manual` holds the
/// packages installed by request.
pub fn xbps_inventory(text: &str, manual: &Vec<String>) -> (r: Vec<Match>)
    ensures
        shows_all(r@, xbps_spec(text@, texts(manual@))),
{
    let lines = lines_of(&chars_of(text));
    let ghost ls = deep(lines@);
    let ghost mv = texts(manual@);
    let ghost f = |l: Seq<char>| xbps_entry(mv, l);
    let mut out: Vec<Match> = Vec::new();
    let n = lines.len();
    let mut i: usize = 0;
    assert(ls.take(0) =~= Seq::<Seq<char>>::empty());
    while i < n
        invariant
            i <= n,
            n == lines@.len(),
            ls == deep(lines@),
            mv == texts(manual@),
            f == (|l: Seq<char>| xbps_entry(mv, l)),
            shows_all(out@, gather(ls.take(i as int), f)),
        decreases n - i,
    {
        let ghost before = ls.take(i as int);
        proof {
            assert(ls.take(i + 1) =~= before.push(ls[i as int]));
            lemma_gather_push(before, ls[i as int], f);
            assert(ls[i as int] == lines@[i as int]@);
        }
        let p = xbps_split_fields(&lines[i]);
        if p.len() >= 2 {
            let tag = string_of(&p[0]);
            if str_eq(tag.as_str(), "ii") {
                let full = string_of(&p[1]);
                let (name, version) = split_xbps(full.as_str());
                let nc = chars_of(name.as_str());
                let mut m = fresh("XBPS", &nc, &nc);
                m.version = version;
                m.summary = string_of(&field(&p, 2));
                m.role = if is_listed(manual, &nc) {
                    Role::Explicit
                } else {
                    Role::Dependency
                };
                proof {
                    assert(deep(p@)[0] == p@[0]@);
                    assert(deep(p@)[1] == p@[1]@);
                    lemma_shows_push(out@, gather(before, f), m, f(ls[i as int])->Some_0);
                }
                out.push(m);
            }
        }
        i = i + 1;
    }
    assert(ls.take(n as int) =~= ls);
    out
}

// ---------------------------------------------------------------------------
// Eopkg
// ---------------------------------------------------------------------------

/// A line of `eopkg list-installed --automatic` (`name - parent`): the
/// trimmed name and the trimmed package that pulled it in.
pub open spec fn eopkg_auto_entry(line: Seq<char>) -> Option<(Seq<char>, Seq<char>)> {
    match split_once_seq(line, " - "@) {
        Some((name, parent)) => if trim_spec(name).len() > 0 {
            Some((trim_spec(name), trim_spec(parent)))
        } else {
            None
        },
        None => None,
    }
}

pub open spec fn eopkg_auto_spec(text: Seq<char>) -> Seq<(Seq<char>, Seq<char>)> {
    gather(lines_spec(text), |l: Seq<char>| eopkg_auto_entry(l))
}

/// The automatically installed packages and what pulled each in.
pub fn eopkg_automatic(text: &str) -> (r: KeyRecord)
    ensures
        record_view(r) == eopkg_auto_spec(text@),
{
    let dash = chars_of(" - ");
    let lines = lines_of(&chars_of(text));
    let ghost ls = deep(lines@);
    let ghost f = |l: Seq<char>| eopkg_auto_entry(l);
    let mut fields: Vec<(String, String)> = Vec::new();
    let n = lines.len();
    let mut i: usize = 0;
    assert(ls.take(0) =~= Seq::<Seq<char>>::empty());
    assert(fields@.map_values(|f: (String, String)| (f.0@, f.1@)) =~= Seq::<(Seq<char>, Seq<char>)>::empty());
    while i < n
        invariant
            i <= n,
            n == lines@.len(),
            ls == deep(lines@),
            dash@ == " - "@,
            f == (|l: Seq<char>| eopkg_auto_entry(l)),
            fields@.map_values(|f: (String, String)| (f.0@, f.1@)) == gather(ls.take(i as int), f),
        decreases n - i,
    {
        let ghost before = ls.take(i as int);
        proof {
            assert(ls.take(i + 1) =~= before.push(ls[i as int]));
            lemma_gather_push(before, ls[i as int], f);
            assert(ls[i as int] == lines@[i as int]@);
        }
        match split_once_on(&lines[i], &dash) {
            Some((name, parent)) => {
                let t = trim_chars(&name);
                if t.len() > 0 {
                    let ghost prev = fields@;
                    let p = trim_chars(&parent);
                    fields.push((string_of(&t), string_of(&p)));
                    assert(fields@.map_values(|f: (String, String)| (f.0@, f.1@)) =~= prev.map_values(
                        |f: (String, String)| (f.0@, f.1@),
                    ).push((t@, p@)));
                }
            },
            None => {},
        }
        i = i + 1;
    }
    assert(ls.take(n as int) =~= ls);
    KeyRecord { fields }
}

/// A line of `eopkg list-installed` (`name - summary`): a dependency when
/// it was installed automatically (its origin is what pulled it in) and
/// explicit otherwise.
pub open spec fn eopkg_entry(automatic: Seq<(Seq<char>, Seq<char>)>, line: Seq<char>) -> Option<Found> {
    match split_once_seq(line, " - "@) {
        Some((name, summary)) => if trim_spec(name).len() > 0 {
            Some(
                Found {
                    summary: trim_spec(summary),
                    role: if field_value(automatic, trim_spec(name)) is Some {
                        Role::Dependency
                    } else {
                        Role::Explicit
                    },
                    origin: value_or_empty(automatic, trim_spec(name)),
                    ..found("Eopkg"@, trim_spec(name), trim_spec(name))
                },
            )
        } else {
            None
        },
        None => None,
    }
}

pub open spec fn eopkg_spec(text: Seq<char>, automatic: Seq<(Seq<char>, Seq<char>)>) -> Seq<Found> {
    gather(lines_spec(text), |l: Seq<char>| eopkg_entry(automatic, l))
}

/// The installed packages of `eopkg list-installed`.
pub fn eopkg_inventory(text: &str, automatic: &KeyRecord) -> (r: Vec<Match>)
    ensures
        shows_all(r@, eopkg_spec(text@, record_view(*automatic))),
{
    let dash = chars_of(" - ");
    let lines = lines_of(&chars_of(text));
    let ghost ls = deep(lines@);
    let ghost av = record_view(*automatic);
    let ghost f = |l: Seq<char>| eopkg_entry(av, l);
    let mut out: Vec<Match> = Vec::new();
    let n = lines.len();
    let mut i: usize = 0;
    assert(ls.take(0) =~= Seq::<Seq<char>>::empty());
    while i < n
        invariant
            i <= n,
            n == lines@.len(),
            ls == deep(lines@),
            dash@ == " - "@,
            av == record_view(*automatic),
            f == (|l: Seq<char>| eopkg_entry(av, l)),
            shows_all(out@, gather(ls.take(i as int), f)),
        decreases n - i,
    {
        let ghost before = ls.take(i as int);
        proof {
            assert(ls.take(i + 1) =~= before.push(ls[i as int]));
            lemma_gather_push(before, ls[i as int], f);
            assert(ls[i as int] == lines@[i as int]@);
        }
        match split_once_on(&lines[i], &dash) {
            Some((name, summary)) => {
                let t = trim_chars(&name);
                if t.len() > 0 {
                    let key = string_of(&t);
                    let mut m = fresh("Eopkg", &t, &t);
                    m.summary = string_of(&trim_chars(&summary));
                    match automatic.get(key.as_str()) {
                        Some(parent) => {
                            m.role = Role::Dependency;
                            m.origin = parent;
                        },
                        None => {
                            m.role = Role::Explicit;
                        },
                    }
                    proof {
                        lemma_shows_push(out@, gather(before, f), m, f(ls[i as int])->Some_0);
                    }
                    out.push(m);
                }
            },
            None => {},
        }
        i = i + 1;
    }
    assert(ls.take(n as int) =~= ls);
    out
}

/// The pattern of a repository named by `swupd 3rd-party list`.
pub open spec fn repository_pattern() -> Seq<char> {
    "(?i)(?:repo|repository)\\s*[: ]\\s*([A-Za-z0-9+_.-]+)"@
}

/// The third-party repositories that `swupd 3rd-party list` names, sorted
/// and once each.
pub open spec fn swupd_repositories_spec(text: Seq<char>) -> Seq<Seq<char>> {
    sort_dedup(gather(lines_spec(text), |l: Seq<char>| regex_group(repository_pattern(), l)))
}

pub fn swupd_repositories(text: &str) -> (r: Vec<String>)
    ensures
        texts(r@) == swupd_repositories_spec(text@),
{
    let lines = lines_of(&chars_of(text));
    let ghost ls = deep(lines@);
    let ghost f = |l: Seq<char>| regex_group(repository_pattern(), l);
    let mut found: Vec<String> = Vec::new();
    let n = lines.len();
    let mut i: usize = 0;
    assert(ls.take(0) =~= Seq::<Seq<char>>::empty());
    assert(texts(found@) =~= Seq::<Seq<char>>::empty());
    while i < n
        invariant
            i <= n,
            n == lines@.len(),
            ls == deep(lines@),
            f == (|l: Seq<char>| regex_group(repository_pattern(), l)),
            texts(found@) == gather(ls.take(i as int), f),
        decreases n - i,
    {
        let ghost before = ls.take(i as int);
        proof {
            assert(ls.take(i + 1) =~= before.push(ls[i as int]));
            lemma_gather_push(before, ls[i as int], f);
            assert(ls[i as int] == lines@[i as int]@);
        }
        let line = string_of(&lines[i]);
        match capture_first("(?i)(?:repo|repository)\\s*[: ]\\s*([A-Za-z0-9+_.-]+)", line.as_str()) {
            Some(g) => {
                let ghost prev = found@;
                found.push(g);
                assert(texts(found@) =~= texts(prev).push(found@.last()@));
            },
            None => {},
        }
        i = i + 1;
    }
    assert(ls.take(n as int) =~= ls);
    sort_unique(&found)
}

} // verus!
