//! Applications installed through language and user-level managers
//! (uv, pipx, npm, Cargo, Conda, Homebrew, Gear Lever), AppImages and
//! desktop entries: which are relevant to a query, and how each is
//! described.
use crate::inventory::{
    fresh, found, gather, lemma_gather_push, lemma_paired_push, lemma_shows_push, piece,
    relevant_to, shows, shows_all, shows_paired, Found,
};
use crate::lines::{first_word, first_word_of, lines_of, lines_spec, words_of, words_spec};
use crate::matching::{capture_triple, regex_triple};
use crate::model::{texts, Match, Role};
use crate::owner::stem_of;
use crate::platform::{trim_quotes, trim_quotes_exec};
use crate::provenance::opt_texts_of;
use crate::text::{
    chars_of, ends_with_chars, is_space, is_space_char, owned, rfind_after,
    slice_chars, starts_with_chars, str_eq, string_of, trim_chars, trim_spec,
};
use crate::lines::{ascii_lower_chars, ascii_lower_seq};
use crate::util::{deep, file_name, file_name_spec, path_within, path_within_spec, relevant, relevant_spec, views};
use vstd::prelude::*;

verus! {

// ---------------------------------------------------------------------------
// Commands
// ---------------------------------------------------------------------------

/// The first value that is relevant to the query.
pub open spec fn first_relevant(values: Seq<Seq<char>>, query: Seq<char>) -> Option<Seq<char>>
    decreases values.len(),
{
    if values.len() == 0 {
        None
    } else if relevant_spec(query, seq![values[0]]) {
        Some(values[0])
    } else {
        first_relevant(values.drop_first(), query)
    }
}

fn find_relevant(values: &Vec<String>, query: &str) -> (r: Option<String>)
    ensures
        opt_texts_of(r) == first_relevant(texts(values@), query@),
{
    let mut i: usize = 0;
    assert(texts(values@).skip(0) =~= texts(values@));
    while i < values.len()
        invariant
            i <= values@.len(),
            first_relevant(texts(values@), query@) == first_relevant(texts(values@).skip(i as int), query@),
        decreases values@.len() - i,
    {
        let v = chars_of(values[i].as_str());
        assert(texts(values@).skip(i as int)[0] == values@[i as int]@);
        if relevant_to(query, &v) {
            return Some(values[i].clone());
        }
        assert(texts(values@).skip(i as int).drop_first() =~= texts(values@).skip(i + 1));
        i = i + 1;
    }
    assert(texts(values@).skip(i as int) =~= Seq::<Seq<char>>::empty());
    None
}

fn text_or_empty(v: &Option<String>) -> (r: String)
    ensures
        r@ == (match opt_texts_of(*v) {
            Some(t) => t,
            None => Seq::empty(),
        }),
{
    match v {
        Some(s) => s.clone(),
        None => String::new(),
    }
}

/// A text, or nothing.
pub open spec fn or_empty(v: Option<Seq<char>>) -> Seq<char> {
    match v {
        Some(t) => t,
        None => Seq::empty(),
    }
}

// ---------------------------------------------------------------------------
// uv
// ---------------------------------------------------------------------------

/// `s` without its trailing `c` characters.
pub open spec fn strip_trailing(s: Seq<char>, c: char) -> Seq<char>
    decreases s.len(),
{
    if s.len() > 0 && s.last() == c {
        strip_trailing(s.drop_last(), c)
    } else {
        s
    }
}

/// `s` without its leading `c` characters.
pub open spec fn strip_leading(s: Seq<char>, c: char) -> Seq<char>
    decreases s.len(),
{
    if s.len() > 0 && s[0] == c {
        strip_leading(s.drop_first(), c)
    } else {
        s
    }
}

fn strip_trailing_exec(s: &[char], c: char) -> (r: Vec<char>)
    ensures
        r@ == strip_trailing(s@, c),
{
    let mut n = s.len();
    assert(s@.take(n as int) =~= s@);
    while n > 0 && s[n - 1] == c
        invariant
            n <= s@.len(),
            strip_trailing(s@, c) == strip_trailing(s@.take(n as int), c),
        decreases n,
    {
        assert(s@.take(n as int).drop_last() =~= s@.take(n - 1));
        n = n - 1;
    }
    slice_chars(s, 0, n)
}

fn strip_leading_exec(s: &[char], c: char) -> (r: Vec<char>)
    ensures
        r@ == strip_leading(s@, c),
{
    let mut k: usize = 0;
    assert(s@.skip(0) =~= s@);
    while k < s.len() && s[k] == c
        invariant
            k <= s@.len(),
            strip_leading(s@, c) == strip_leading(s@.skip(k as int), c),
        decreases s@.len() - k,
    {
        assert(s@.skip(k as int).drop_first() =~= s@.skip(k + 1));
        k = k + 1;
    }
    let r = slice_chars(s, k, s.len());
    assert(r@ =~= s@.skip(k as int));
    r
}

/// A tool line of `uv tool list` starts neither with whitespace nor with
/// `-`; the lines below it list its commands.
pub open spec fn uv_tool_line(line: Seq<char>) -> bool {
    line.len() == 0 || (!is_space_char(line[0]) && line[0] != '-')
}

/// The tools of `uv tool list`, each with its version and commands.
pub open spec fn uv_scan(lines: Seq<Seq<char>>) -> Seq<(Seq<char>, Seq<char>, Seq<Seq<char>>)>
    decreases lines.len(),
{
    if lines.len() == 0 {
        Seq::empty()
    } else {
        let prev = uv_scan(lines.drop_last());
        let line = lines.last();
        if uv_tool_line(line) {
            let f = words_spec(strip_trailing(line, ':'));
            if f.len() > 0 {
                prev.push((f[0], strip_leading(piece(f, 1), 'v'), Seq::empty()))
            } else {
                prev
            }
        } else {
            let t = trim_spec(line);
            if "- "@.is_prefix_of(t) && prev.len() > 0 {
                let last = prev.last();
                prev.update(prev.len() - 1, (last.0, last.1, last.2.push(first_word(t.skip(2)))))
            } else {
                prev
            }
        }
    }
}

pub open spec fn uv_view(v: Seq<(String, String, Vec<String>)>) -> Seq<(Seq<char>, Seq<char>, Seq<Seq<char>>)> {
    v.map_values(|r: (String, String, Vec<String>)| (r.0@, r.1@, texts(r.2@)))
}

fn uv_records(text: &str) -> (r: Vec<(String, String, Vec<String>)>)
    ensures
        uv_view(r@) == uv_scan(lines_spec(text@)),
{
    let lines = lines_of(&chars_of(text));
    let ghost ls = deep(lines@);
    let dash = chars_of("- ");
    let mut out: Vec<(String, String, Vec<String>)> = Vec::new();
    let n = lines.len();
    let mut i: usize = 0;
    assert(ls.take(0) =~= Seq::<Seq<char>>::empty());
    assert(uv_view(out@) =~= Seq::<(Seq<char>, Seq<char>, Seq<Seq<char>>)>::empty());
    while i < n
        invariant
            i <= n,
            n == lines@.len(),
            ls == deep(lines@),
            dash@ == "- "@,
            uv_view(out@) == uv_scan(ls.take(i as int)),
        decreases n - i,
    {
        let ghost prev = out@;
        proof {
            assert(ls.take(i + 1).drop_last() =~= ls.take(i as int));
            assert(ls.take(i + 1).last() == lines@[i as int]@);
        }
        let line = &lines[i];
        if line.len() == 0 || (!is_space(line[0]) && line[0] != '-') {
            let f = words_of(&strip_trailing_exec(line, ':'));
            if f.len() > 0 {
                let empty: Vec<char> = Vec::new();
                let second = if f.len() > 1 {
                    strip_leading_exec(&f[1], 'v')
                } else {
                    strip_leading_exec(&empty, 'v')
                };
                proof {
                    assert(deep(f@)[0] == f@[0]@);
                    if f.len() > 1 {
                        assert(deep(f@)[1] == f@[1]@);
                    }
                    assert(empty@ =~= Seq::<char>::empty());
                }
                let rec: (String, String, Vec<String>) = (string_of(&f[0]), string_of(&second), Vec::new());
                assert(texts(rec.2@) =~= Seq::<Seq<char>>::empty());
                out.push(rec);
                assert(uv_view(out@) =~= uv_view(prev).push(
                    (f@[0]@, second@, Seq::<Seq<char>>::empty()),
                ));
            }
        } else {
            let t = trim_chars(line);
            proof {
                reveal_strlit("- ");
            }
            if starts_with_chars(&t, &dash) && out.len() > 0 {
                let rest = slice_chars(&t, 2, t.len());
                assert(rest@ =~= t@.skip(2));
                let cmd = string_of(&first_word_of(&rest));
                let last = out.len() - 1;
                let mut record = out.remove(last);
                let ghost before = record;
                assert(before == prev[last as int]);
                let ghost cv = cmd@;
                record.2.push(cmd);
                assert(texts(record.2@) =~= texts(before.2@).push(cv));
                let ghost rv = (record.0@, record.1@, texts(record.2@));
                out.push(record);
                assert(out@.len() == prev.len());
                assert forall|k: int| 0 <= k < last implies #[trigger] out@[k] == prev[k] by {}
                assert forall|k: int| 0 <= k < prev.len() implies #[trigger] uv_view(out@)[k] == uv_view(prev).update(
                    prev.len() - 1,
                    (before.0@, before.1@, texts(before.2@).push(cv)),
                )[k] by {
                    if k < last {
                        assert(out@[k] == prev[k]);
                    }
                }
                assert(uv_view(out@) =~= uv_view(prev).update(
                    prev.len() - 1,
                    (before.0@, before.1@, texts(before.2@).push(cv)),
                ));
            }
        }
        i = i + 1;
    }
    assert(ls.take(n as int) =~= ls);
    out
}

/// A uv tool, when its name or one of its commands is relevant; paired
/// with the first relevant command, to locate on `PATH`.
pub open spec fn uv_entry(query: Seq<char>, r: (Seq<char>, Seq<char>, Seq<Seq<char>>)) -> Option<
    (Found, Option<Seq<char>>),
> {
    if relevant_spec(query, seq![r.0]) || first_relevant(r.2, query) is Some {
        Some(
            (
                Found {
                    version: r.1,
                    scope: "user"@,
                    role: Role::Explicit,
                    ..found("UV Tool"@, r.0, r.0)
                },
                first_relevant(r.2, query),
            ),
        )
    } else {
        None
    }
}

pub open spec fn uv_spec(text: Seq<char>, query: Seq<char>) -> Seq<(Found, Option<Seq<char>>)> {
    gather(
        uv_scan(lines_spec(text)),
        |r: (Seq<char>, Seq<char>, Seq<Seq<char>>)| uv_entry(query, r),
    )
}

/// The uv tools of `uv tool list` that are relevant to the query, each
/// with the command to locate.
pub fn uv_listing(text: &str, query: &str) -> (r: Vec<(Match, Option<String>)>)
    ensures
        shows_paired(r@, uv_spec(text@, query@)),
{
    let records = uv_records(text);
    let ghost rs = uv_view(records@);
    let ghost f = |r: (Seq<char>, Seq<char>, Seq<Seq<char>>)| uv_entry(query@, r);
    let mut out: Vec<(Match, Option<String>)> = Vec::new();
    let mut i: usize = 0;
    assert(rs.take(0) =~= Seq::<(Seq<char>, Seq<char>, Seq<Seq<char>>)>::empty());
    while i < records.len()
        invariant
            i <= records@.len(),
            rs == uv_view(records@),
            f == (|r: (Seq<char>, Seq<char>, Seq<Seq<char>>)| uv_entry(query@, r)),
            shows_paired(out@, gather(rs.take(i as int), f)),
        decreases records@.len() - i,
    {
        let ghost before = rs.take(i as int);
        proof {
            assert(rs.take(i + 1) =~= before.push(rs[i as int]));
            lemma_gather_push(before, rs[i as int], f);
        }
        let name = chars_of(records[i].0.as_str());
        let command = find_relevant(&records[i].2, query);
        if relevant_to(query, &name) || command.is_some() {
            let mut m = fresh("UV Tool", &name, &name);
            m.version = records[i].1.clone();
            m.scope = owned("user");
            m.role = Role::Explicit;
            proof {
                lemma_paired_push(out@, gather(before, f), (m, command), f(rs[i as int])->Some_0);
            }
            out.push((m, command));
        }
        i = i + 1;
    }
    assert(rs.take(records@.len() as int) =~= rs);
    out
}

// ---------------------------------------------------------------------------
// pipx
// ---------------------------------------------------------------------------

/// A pipx environment as its JSON listing describes it.
pub struct PipxEnvironment {
    pub environment: String,
    /// The main package's name.
    pub package: Option<String>,
    /// The main package's commands.
    pub apps: Vec<String>,
    pub version: Option<String>,
    /// Where the main package was installed from.
    pub source: Option<String>,
}

/// A pipx environment, when its name, its main package or one of its
/// commands is relevant; paired with the first relevant command.
pub open spec fn pipx_entry(query: Seq<char>, scope: Seq<char>, e: PipxEnvironment) -> Option<
    (Found, Option<Seq<char>>),
> {
    let name = match opt_texts_of(e.package) {
        Some(p) => p,
        None => e.environment@,
    };
    if relevant_spec(query, seq![e.environment@, name]) || first_relevant(texts(e.apps@), query) is Some {
        Some(
            (
                Found {
                    version: or_empty(opt_texts_of(e.version)),
                    origin: match opt_texts_of(e.source) {
                        Some(s) => s,
                        None => name,
                    },
                    scope,
                    role: Role::Explicit,
                    ..found("Pipx"@, e.environment@, name)
                },
                first_relevant(texts(e.apps@), query),
            ),
        )
    } else {
        None
    }
}

pub open spec fn pipx_spec(envs: Seq<PipxEnvironment>, query: Seq<char>, scope: Seq<char>) -> Seq<
    (Found, Option<Seq<char>>),
> {
    gather(envs, |e: PipxEnvironment| pipx_entry(query, scope, e))
}

/// The pipx environments of one scope that are relevant to the query, each
/// with the command to locate.
pub fn pipx_listing(envs: &Vec<PipxEnvironment>, query: &str, scope: &str) -> (r: Vec<(Match, Option<String>)>)
    ensures
        shows_paired(r@, pipx_spec(envs@, query@, scope@)),
{
    let ghost f = |e: PipxEnvironment| pipx_entry(query@, scope@, e);
    let mut out: Vec<(Match, Option<String>)> = Vec::new();
    let mut i: usize = 0;
    assert(envs@.take(0) =~= Seq::<PipxEnvironment>::empty());
    while i < envs.len()
        invariant
            i <= envs@.len(),
            f == (|e: PipxEnvironment| pipx_entry(query@, scope@, e)),
            shows_paired(out@, gather(envs@.take(i as int), f)),
        decreases envs@.len() - i,
    {
        let ghost before = envs@.take(i as int);
        proof {
            assert(envs@.take(i + 1) =~= before.push(envs@[i as int]));
            lemma_gather_push(before, envs@[i as int], f);
        }
        let e = &envs[i];
        let name = match &e.package {
            Some(p) => p.clone(),
            None => e.environment.clone(),
        };
        let values = [e.environment.as_str(), name.as_str()];
        let hit = relevant(query, &values);
        assert(views(values@) =~= seq![e.environment@, name@]);
        let command = find_relevant(&e.apps, query);
        if hit || command.is_some() {
            let env = chars_of(e.environment.as_str());
            let nc = chars_of(name.as_str());
            let mut m = fresh("Pipx", &env, &nc);
            m.version = text_or_empty(&e.version);
            m.origin = match &e.source {
                Some(s) => s.clone(),
                None => name.clone(),
            };
            m.scope = owned(scope);
            m.role = Role::Explicit;
            proof {
                lemma_paired_push(out@, gather(before, f), (m, command), f(envs@[i as int])->Some_0);
            }
            out.push((m, command));
        }
        i = i + 1;
    }
    assert(envs@.take(envs@.len() as int) =~= envs@);
    out
}

// ---------------------------------------------------------------------------
// npm
// ---------------------------------------------------------------------------

/// A globally installed npm package: name, version and where it was
/// resolved from.
pub open spec fn npm_entry(query: Seq<char>, scope: Seq<char>, d: (String, Option<String>, Option<String>)) -> Option<
    Found,
> {
    if relevant_spec(query, seq![d.0@]) {
        Some(
            Found {
                version: or_empty(opt_texts_of(d.1)),
                origin: or_empty(opt_texts_of(d.2)),
                scope,
                role: Role::Explicit,
                ..found("NPM"@, d.0@, d.0@)
            },
        )
    } else {
        None
    }
}

/// The global npm packages relevant to the query. When the global prefix
/// is known and its package directory lists no relevant name, there are
/// none (the full listing is not consulted); packages are user-scoped when
/// the prefix lies in the home directory.
pub open spec fn npm_spec(
    prefix: Seq<char>,
    names: Option<Seq<Seq<char>>>,
    dependencies: Seq<(String, Option<String>, Option<String>)>,
    home: Seq<char>,
    query: Seq<char>,
) -> Seq<Found> {
    let p = trim_spec(prefix);
    if p.len() > 0 && (match names {
        Some(n) => first_relevant(n, query) is None,
        None => false,
    }) {
        Seq::empty()
    } else {
        gather(
            dependencies,
            |d: (String, Option<String>, Option<String>)|
                npm_entry(
                    query,
                    if path_within_spec(p, home) {
                        "user"@
                    } else {
                        "system"@
                    },
                    d,
                ),
        )
    }
}

/// Whether the directory listing should be consulted at all.
pub fn npm_prefix_names_relevant(prefix: &str, names: &Option<Vec<String>>, query: &str) -> (b: bool)
    ensures
        b == !(trim_spec(prefix@).len() > 0 && (match names {
            Some(n) => first_relevant(texts(n@), query@) is None,
            None => false,
        })),
{
    let p = trim_chars(&chars_of(prefix));
    if p.len() == 0 {
        return true;
    }
    match names {
        Some(n) => find_relevant(n, query).is_some(),
        None => true,
    }
}

/// The globally installed npm packages relevant to the query: `prefix` is
/// what `npm prefix --global` printed, `names` the packages found under its
/// `lib/node_modules` (when it could be read), `dependencies` the entries
/// of the global JSON listing.
pub fn npm_listing(
    prefix: &str,
    names: &Option<Vec<String>>,
    dependencies: &Vec<(String, Option<String>, Option<String>)>,
    home: &str,
    query: &str,
) -> (r: Vec<Match>)
    ensures
        shows_all(
            r@,
            npm_spec(
                prefix@,
                match names {
                    Some(n) => Some(texts(n@)),
                    None => None,
                },
                dependencies@,
                home@,
                query@,
            ),
        ),
{
    let mut out: Vec<Match> = Vec::new();
    if !npm_prefix_names_relevant(prefix, names, query) {
        return out;
    }
    let p = string_of(&trim_chars(&chars_of(prefix)));
    let scope = if path_within(p.as_str(), home) {
        "user"
    } else {
        "system"
    };
    let ghost sv = scope@;
    let ghost f = |d: (String, Option<String>, Option<String>)| npm_entry(query@, sv, d);
    let mut i: usize = 0;
    assert(dependencies@.take(0) =~= Seq::<(String, Option<String>, Option<String>)>::empty());
    while i < dependencies.len()
        invariant
            i <= dependencies@.len(),
            sv == scope@,
            f == (|d: (String, Option<String>, Option<String>)| npm_entry(query@, sv, d)),
            shows_all(out@, gather(dependencies@.take(i as int), f)),
        decreases dependencies@.len() - i,
    {
        let ghost before = dependencies@.take(i as int);
        proof {
            assert(dependencies@.take(i + 1) =~= before.push(dependencies@[i as int]));
            lemma_gather_push(before, dependencies@[i as int], f);
        }
        let d = &dependencies[i];
        let name = chars_of(d.0.as_str());
        if relevant_to(query, &name) {
            let mut m = fresh("NPM", &name, &name);
            m.version = text_or_empty(&d.1);
            m.origin = text_or_empty(&d.2);
            m.scope = owned(scope);
            m.role = Role::Explicit;
            proof {
                lemma_shows_push(out@, gather(before, f), m, f(dependencies@[i as int])->Some_0);
            }
            out.push(m);
        }
        i = i + 1;
    }
    assert(dependencies@.take(dependencies@.len() as int) =~= dependencies@);
    let ghost want = npm_spec(
        prefix@,
        match names {
            Some(n) => Some(texts(n@)),
            None => None,
        },
        dependencies@,
        home@,
        query@,
    );
    assert(want == gather(dependencies@, f));
    out
}

// ---------------------------------------------------------------------------
// Cargo
// ---------------------------------------------------------------------------

/// The pattern of a key of `.crates2.json`: crate, version and source.
pub open spec fn cargo_pattern() -> Seq<char> {
    "^(.+?)\\s+(\\S+)\\s+\\((.+)\\)$"@
}

/// Whether a list contains a text.
pub open spec fn contains_text(values: Seq<Seq<char>>, v: Seq<char>) -> bool {
    exists|j: int| 0 <= j < values.len() && #[trigger] values[j] == v
}

/// An installed crate (a key of `.crates2.json` with its binaries), when
/// its name or one of its binaries is relevant; paired with the query as
/// the command to locate when one of its binaries is exactly the query.
pub open spec fn cargo_entry(query: Seq<char>, e: (String, Vec<String>)) -> Option<(Found, Option<Seq<char>>)> {
    match regex_triple(cargo_pattern(), e.0@) {
        Some((name, version, source)) => if relevant_spec(query, seq![name]) || first_relevant(
            texts(e.1@),
            query,
        ) is Some {
            Some(
                (
                    Found {
                        version,
                        origin: source,
                        scope: "user"@,
                        role: Role::Explicit,
                        ..found("Cargo"@, name, name)
                    },
                    if contains_text(texts(e.1@), query) {
                        Some(query)
                    } else {
                        None
                    },
                ),
            )
        } else {
            None
        },
        None => None,
    }
}

pub open spec fn cargo_spec(installs: Seq<(String, Vec<String>)>, query: Seq<char>) -> Seq<(Found, Option<Seq<char>>)> {
    gather(installs, |e: (String, Vec<String>)| cargo_entry(query, e))
}

fn has_text(values: &Vec<String>, v: &str) -> (b: bool)
    ensures
        b == contains_text(texts(values@), v@),
{
    let mut j: usize = 0;
    while j < values.len()
        invariant
            j <= values@.len(),
            forall|k: int| 0 <= k < j ==> #[trigger] texts(values@)[k] != v@,
        decreases values@.len() - j,
    {
        if str_eq(values[j].as_str(), v) {
            assert(texts(values@)[j as int] == v@);
            return true;
        }
        j = j + 1;
    }
    false
}

/// The crates installed by `cargo install` that are relevant to the query,
/// each with the command to locate.
pub fn cargo_listing(installs: &Vec<(String, Vec<String>)>, query: &str) -> (r: Vec<(Match, Option<String>)>)
    ensures
        shows_paired(r@, cargo_spec(installs@, query@)),
{
    let ghost f = |e: (String, Vec<String>)| cargo_entry(query@, e);
    let mut out: Vec<(Match, Option<String>)> = Vec::new();
    let mut i: usize = 0;
    assert(installs@.take(0) =~= Seq::<(String, Vec<String>)>::empty());
    while i < installs.len()
        invariant
            i <= installs@.len(),
            f == (|e: (String, Vec<String>)| cargo_entry(query@, e)),
            shows_paired(out@, gather(installs@.take(i as int), f)),
        decreases installs@.len() - i,
    {
        let ghost before = installs@.take(i as int);
        proof {
            assert(installs@.take(i + 1) =~= before.push(installs@[i as int]));
            lemma_gather_push(before, installs@[i as int], f);
        }
        let e = &installs[i];
        match capture_triple("^(.+?)\\s+(\\S+)\\s+\\((.+)\\)$", e.0.as_str()) {
            Some((name, version, source)) => {
                let nc = chars_of(name.as_str());
                if relevant_to(query, &nc) || find_relevant(&e.1, query).is_some() {
                    let mut m = fresh("Cargo", &nc, &nc);
                    m.version = version;
                    m.origin = source;
                    m.scope = owned("user");
                    m.role = Role::Explicit;
                    let command = if has_text(&e.1, query) {
                        Some(owned(query))
                    } else {
                        None
                    };
                    proof {
                        lemma_paired_push(out@, gather(before, f), (m, command), f(installs@[i as int])->Some_0);
                    }
                    out.push((m, command));
                }
            },
            None => {},
        }
        i = i + 1;
    }
    assert(installs@.take(installs@.len() as int) =~= installs@);
    out
}

// ---------------------------------------------------------------------------
// Conda and Micromamba
// ---------------------------------------------------------------------------

/// The environments that are listed: at most the first 128.
pub fn conda_environments(envs: Vec<String>) -> (r: Vec<String>)
    ensures
        r@ == (if envs@.len() <= 128 {
            envs@
        } else {
            envs@.take(128)
        }),
{
    let mut envs = envs;
    if envs.len() > 128 {
        envs.truncate(128);
    }
    envs
}

/// A package of a Conda environment, when its name is relevant.
pub open spec fn conda_entry(
    backend: Seq<char>,
    profile: Seq<char>,
    query: Seq<char>,
    p: (Option<String>, Option<String>, Option<String>),
) -> Option<Found> {
    match opt_texts_of(p.0) {
        Some(id) => if relevant_spec(query, seq![id]) {
            Some(
                Found {
                    version: or_empty(opt_texts_of(p.1)),
                    origin: or_empty(opt_texts_of(p.2)),
                    profile,
                    scope: "user"@,
                    role: Role::Explicit,
                    ..found(backend, id, id)
                },
            )
        } else {
            None
        },
        None => None,
    }
}

/// The backend that a Conda-style manager stands for.
pub open spec fn conda_backend(manager: Seq<char>) -> Seq<char> {
    if manager == "conda"@ {
        "Conda"@
    } else {
        "Micromamba"@
    }
}

pub open spec fn conda_spec(
    manager: Seq<char>,
    profile: Seq<char>,
    packages: Seq<(Option<String>, Option<String>, Option<String>)>,
    query: Seq<char>,
) -> Seq<Found> {
    gather(
        packages,
        |p: (Option<String>, Option<String>, Option<String>)|
            conda_entry(conda_backend(manager), profile, query, p),
    )
}

/// The packages of one environment (name, version and channel, as the
/// JSON listing gave them) that are relevant to the query.
pub fn conda_listing(
    manager: &str,
    profile: &str,
    packages: &Vec<(Option<String>, Option<String>, Option<String>)>,
    query: &str,
) -> (r: Vec<Match>)
    ensures
        shows_all(r@, conda_spec(manager@, profile@, packages@, query@)),
{
    let backend = if str_eq(manager, "conda") {
        "Conda"
    } else {
        "Micromamba"
    };
    let ghost bv = backend@;
    let ghost f = |p: (Option<String>, Option<String>, Option<String>)| conda_entry(bv, profile@, query@, p);
    let mut out: Vec<Match> = Vec::new();
    let mut i: usize = 0;
    assert(packages@.take(0) =~= Seq::<(Option<String>, Option<String>, Option<String>)>::empty());
    while i < packages.len()
        invariant
            i <= packages@.len(),
            bv == backend@,
            bv == conda_backend(manager@),
            f == (|p: (Option<String>, Option<String>, Option<String>)| conda_entry(bv, profile@, query@, p)),
            shows_all(out@, gather(packages@.take(i as int), f)),
        decreases packages@.len() - i,
    {
        let ghost before = packages@.take(i as int);
        proof {
            assert(packages@.take(i + 1) =~= before.push(packages@[i as int]));
            lemma_gather_push(before, packages@[i as int], f);
        }
        let p = &packages[i];
        match &p.0 {
            Some(id) => {
                let idc = chars_of(id.as_str());
                if relevant_to(query, &idc) {
                    let mut m = fresh(backend, &idc, &idc);
                    m.version = text_or_empty(&p.1);
                    m.origin = text_or_empty(&p.2);
                    m.profile = owned(profile);
                    m.scope = owned("user");
                    m.role = Role::Explicit;
                    proof {
                        lemma_shows_push(out@, gather(before, f), m, f(packages@[i as int])->Some_0);
                    }
                    out.push(m);
                }
            },
            None => {},
        }
        i = i + 1;
    }
    assert(packages@.take(packages@.len() as int) =~= packages@);
    out
}

// ---------------------------------------------------------------------------
// Homebrew
// ---------------------------------------------------------------------------

/// A formula or cask of `brew info --json=v2 --installed`, as read from
/// the JSON: its name (or token), installed version, tap and whether it
/// was installed on request.
pub struct BrewRecord {
    pub cask: bool,
    pub id: Option<String>,
    pub version: Option<String>,
    pub tap: Option<String>,
    pub on_request: Option<bool>,
}

pub open spec fn brew_entry(query: Seq<char>, r: BrewRecord) -> Option<Found> {
    match opt_texts_of(r.id) {
        Some(id) => if relevant_spec(query, seq![id]) {
            Some(
                Found {
                    version: or_empty(opt_texts_of(r.version)),
                    origin: or_empty(opt_texts_of(r.tap)),
                    role: match r.on_request {
                        Some(true) => Role::Explicit,
                        Some(false) => Role::Dependency,
                        None => Role::Unknown,
                    },
                    scope: "user"@,
                    ..found(
                        if r.cask {
                            "Homebrew Cask"@
                        } else {
                            "Homebrew"@
                        },
                        id,
                        id,
                    )
                },
            )
        } else {
            None
        },
        None => None,
    }
}

pub open spec fn brew_spec(records: Seq<BrewRecord>, query: Seq<char>) -> Seq<Found> {
    gather(records, |r: BrewRecord| brew_entry(query, r))
}

/// The Homebrew formulae and casks that are relevant to the query.
pub fn brew_listing(records: &Vec<BrewRecord>, query: &str) -> (r: Vec<Match>)
    ensures
        shows_all(r@, brew_spec(records@, query@)),
{
    let ghost f = |r: BrewRecord| brew_entry(query@, r);
    let mut out: Vec<Match> = Vec::new();
    let mut i: usize = 0;
    assert(records@.take(0) =~= Seq::<BrewRecord>::empty());
    while i < records.len()
        invariant
            i <= records@.len(),
            f == (|r: BrewRecord| brew_entry(query@, r)),
            shows_all(out@, gather(records@.take(i as int), f)),
        decreases records@.len() - i,
    {
        let ghost before = records@.take(i as int);
        proof {
            assert(records@.take(i + 1) =~= before.push(records@[i as int]));
            lemma_gather_push(before, records@[i as int], f);
        }
        let r = &records[i];
        match &r.id {
            Some(id) => {
                let idc = chars_of(id.as_str());
                if relevant_to(query, &idc) {
                    let backend = if r.cask {
                        "Homebrew Cask"
                    } else {
                        "Homebrew"
                    };
                    let mut m = fresh(backend, &idc, &idc);
                    m.version = text_or_empty(&r.version);
                    m.origin = text_or_empty(&r.tap);
                    m.role = match r.on_request {
                        Some(true) => Role::Explicit,
                        Some(false) => Role::Dependency,
                        None => Role::Unknown,
                    };
                    m.scope = owned("user");
                    proof {
                        lemma_shows_push(out@, gather(before, f), m, f(records@[i as int])->Some_0);
                    }
                    out.push(m);
                }
            },
            None => {},
        }
        i = i + 1;
    }
    assert(records@.take(records@.len() as int) =~= records@);
    out
}

// ---------------------------------------------------------------------------
// Gear Lever
// ---------------------------------------------------------------------------

/// Whether a Flatpak application listing includes Gear Lever.
pub open spec fn lists_gearlever_spec(text: Seq<char>) -> bool {
    exists|i: int|
        0 <= i < lines_spec(text).len() && trim_spec(#[trigger] lines_spec(text)[i])
            == "it.mijorus.gearlever"@
}

pub fn lists_gearlever(text: &str) -> (b: bool)
    ensures
        b == lists_gearlever_spec(text@),
{
    let lines = lines_of(&chars_of(text));
    let ghost ls = deep(lines@);
    let mut i: usize = 0;
    while i < lines.len()
        invariant
            i <= lines@.len(),
            ls == deep(lines@),
            ls == lines_spec(text@),
            forall|k: int| 0 <= k < i ==> trim_spec(#[trigger] ls[k]) != "it.mijorus.gearlever"@,
        decreases lines@.len() - i,
    {
        let t = string_of(&trim_chars(&lines[i]));
        assert(ls[i as int] == lines@[i as int]@);
        if str_eq(t.as_str(), "it.mijorus.gearlever") {
            return true;
        }
        i = i + 1;
    }
    false
}

/// Whether a line opens a JSON object: its first non-space character is
/// `{`.
pub open spec fn opens_object(line: Seq<char>) -> bool {
    trim_spec(line).len() > 0 && trim_spec(line)[0] == '{'
}

/// The last line of Gear Lever's output that opens a JSON object.
pub open spec fn last_object_line(lines: Seq<Seq<char>>) -> Option<Seq<char>>
    decreases lines.len(),
{
    if lines.len() == 0 {
        None
    } else if opens_object(lines.last()) {
        Some(lines.last())
    } else {
        last_object_line(lines.drop_last())
    }
}

/// The JSON line of `gearlever --list-installed --json`.
pub fn gearlever_json_line(text: &str) -> (r: Option<String>)
    ensures
        opt_texts_of(r) == last_object_line(lines_spec(text@)),
{
    let lines = lines_of(&chars_of(text));
    let ghost ls = deep(lines@);
    let mut n = lines.len();
    assert(ls.take(n as int) =~= ls);
    while n > 0
        invariant
            n <= lines@.len(),
            ls == deep(lines@),
            ls == lines_spec(text@),
            last_object_line(ls) == last_object_line(ls.take(n as int)),
        decreases n,
    {
        let t = trim_chars(&lines[n - 1]);
        assert(ls.take(n as int).last() == lines@[n - 1]@);
        if t.len() > 0 && t[0] == '{' {
            return Some(string_of(&lines[n - 1]));
        }
        assert(ls.take(n as int).drop_last() =~= ls.take(n - 1));
        n = n - 1;
    }
    None
}

/// An AppImage managed by Gear Lever, as its JSON listing describes it,
/// with what was observed of its file.
pub struct GearLeverRecord {
    pub name: Option<String>,
    pub path: Option<String>,
    pub version: Option<String>,
    /// The first of its update, source and home URLs that is given.
    pub origin: Option<String>,
    /// The file exists (as a file or a symbolic link).
    pub present: bool,
    pub size: Option<u64>,
}

/// A Gear Lever entry, kept when it names an existing file by an absolute
/// path and its name, file name or path is relevant.
pub open spec fn gearlever_entry(query: Seq<char>, r: GearLeverRecord) -> Option<Found> {
    match (opt_texts_of(r.name), opt_texts_of(r.path)) {
        (Some(name), Some(path)) => if path.len() > 0 && path[0] == '/' && r.present
            && relevant_spec(query, seq![name, or_empty(file_name_spec(path)), path]) {
            Some(
                Found {
                    source: Some(path),
                    scope: "user"@,
                    version: or_empty(opt_texts_of(r.version)),
                    origin: or_empty(opt_texts_of(r.origin)),
                    role: Role::Explicit,
                    size: match r.size {
                        Some(v) => Some(v as nat),
                        None => None,
                    },
                    ..found("Gear Lever"@, path, name)
                },
            )
        } else {
            None
        },
        _ => None,
    }
}

pub open spec fn gearlever_spec(records: Seq<GearLeverRecord>, query: Seq<char>) -> Seq<Found> {
    gather(records, |r: GearLeverRecord| gearlever_entry(query, r))
}

/// The Gear Lever AppImages that are relevant to the query.
pub fn gearlever_listing(records: &Vec<GearLeverRecord>, query: &str) -> (r: Vec<Match>)
    ensures
        shows_all(r@, gearlever_spec(records@, query@)),
{
    let ghost f = |r: GearLeverRecord| gearlever_entry(query@, r);
    let mut out: Vec<Match> = Vec::new();
    let mut i: usize = 0;
    assert(records@.take(0) =~= Seq::<GearLeverRecord>::empty());
    while i < records.len()
        invariant
            i <= records@.len(),
            f == (|r: GearLeverRecord| gearlever_entry(query@, r)),
            shows_all(out@, gather(records@.take(i as int), f)),
        decreases records@.len() - i,
    {
        let ghost before = records@.take(i as int);
        proof {
            assert(records@.take(i + 1) =~= before.push(records@[i as int]));
            lemma_gather_push(before, records@[i as int], f);
        }
        let r = &records[i];
        match (&r.name, &r.path) {
            (Some(name), Some(path)) => {
                let pc = chars_of(path.as_str());
                if pc.len() > 0 && pc[0] == '/' && r.present {
                    let base = match file_name(path.as_str()) {
                        Some(n) => string_of(&n),
                        None => String::new(),
                    };
                    let values = [name.as_str(), base.as_str(), path.as_str()];
                    let hit = relevant(query, &values);
                    assert(views(values@) =~= seq![name@, or_empty(file_name_spec(path@)), path@]);
                    if hit {
                        let nc = chars_of(name.as_str());
                        let mut m = fresh("Gear Lever", &pc, &nc);
                        m.source_path = Some(path.clone());
                        m.scope = owned("user");
                        m.version = text_or_empty(&r.version);
                        m.origin = text_or_empty(&r.origin);
                        m.role = Role::Explicit;
                        m.installed_size_bytes = r.size;
                        proof {
                            lemma_shows_push(out@, gather(before, f), m, f(records@[i as int])->Some_0);
                        }
                        out.push(m);
                    }
                }
            },
            _ => {},
        }
        i = i + 1;
    }
    assert(records@.take(records@.len() as int) =~= records@);
    out
}

// ---------------------------------------------------------------------------
// AppImages
// ---------------------------------------------------------------------------

fn stem_exec(name: &[char]) -> (r: Vec<char>)
    ensures
        r@ == stem_of(name@),
{
    let k = rfind_after(name, '.');
    if k <= 1 {
        slice_chars(name, 0, name.len())
    } else {
        let head = slice_chars(name, 0, k - 1);
        assert(head@ =~= name@.take(k - 1));
        head
    }
}

/// A file met while searching the usual AppImage directories: offered when
/// its name ends in `.AppImage` (in any case) and is relevant.
pub open spec fn appimage_file_entry(path: Seq<char>, query: Seq<char>, home: Seq<char>, size: Option<u64>) -> Option<
    Found,
> {
    let name = or_empty(file_name_spec(path));
    if ".appimage"@.is_suffix_of(ascii_lower_seq(name)) && relevant_spec(query, seq![name]) {
        Some(
            Found {
                source: Some(path),
                scope: if path_within_spec(path, home) {
                    "user"@
                } else {
                    "system"@
                },
                role: Role::Explicit,
                size: match size {
                    Some(v) => Some(v as nat),
                    None => None,
                },
                ..found("AppImage"@, path, stem_of(name))
            },
        )
    } else {
        None
    }
}

/// The AppImage that a file found in an AppImage directory is, if any.
pub fn appimage_file(path: &str, query: &str, home: &str, size: Option<u64>) -> (r: Option<Match>)
    ensures
        match r {
            Some(m) => appimage_file_entry(path@, query@, home@, size) matches Some(f) && shows(m, f),
            None => appimage_file_entry(path@, query@, home@, size) is None,
        },
{
    let name = match file_name(path) {
        Some(n) => n,
        None => Vec::new(),
    };
    let lower = ascii_lower_chars(&name);
    let suffix = chars_of(".appimage");
    if !ends_with_chars(&lower, &suffix) || !relevant_to(query, &name) {
        return None;
    }
    let pc = chars_of(path);
    let stem = stem_exec(&name);
    let mut m = fresh("AppImage", &pc, &stem);
    m.source_path = Some(owned(path));
    m.scope = if path_within(path, home) {
        owned("user")
    } else {
        owned("system")
    };
    m.role = Role::Explicit;
    m.installed_size_bytes = size;
    Some(m)
}

// ---------------------------------------------------------------------------
// Desktop entries
// ---------------------------------------------------------------------------

/// A desktop entry's name, program and container, as its lines set them:
/// the first `Name=` and `Exec=` win (the program is the first word of the
/// command, without quotes), the last container key wins.
pub open spec fn desktop_scan(lines: Seq<Seq<char>>) -> (Seq<char>, Seq<char>, Seq<char>)
    decreases lines.len(),
{
    if lines.len() == 0 {
        (Seq::empty(), Seq::empty(), Seq::empty())
    } else {
        let prev = desktop_scan(lines.drop_last());
        let l = lines.last();
        if "Name="@.is_prefix_of(l) {
            if prev.0.len() == 0 {
                (l.skip(5), prev.1, prev.2)
            } else {
                prev
            }
        } else if "Exec="@.is_prefix_of(l) {
            if prev.1.len() == 0 {
                (prev.0, trim_quotes(first_word(l.skip(5))), prev.2)
            } else {
                prev
            }
        } else if "X-Distrobox-Container="@.is_prefix_of(l) {
            (prev.0, prev.1, l.skip(22))
        } else if "X-Toolbx-Container="@.is_prefix_of(l) {
            (prev.0, prev.1, l.skip(19))
        } else {
            prev
        }
    }
}

/// What a desktop entry file describes, when it has a name.
pub open spec fn desktop_entry_spec(text: Seq<char>) -> Option<(Seq<char>, Seq<char>, Seq<char>)> {
    let d = desktop_scan(lines_spec(text));
    if d.0.len() > 0 {
        Some(d)
    } else {
        None
    }
}

/// A desktop entry's name, program and container.
pub fn desktop_entry(text: &str) -> (r: Option<(String, String, String)>)
    ensures
        match r {
            Some((n, e, c)) => desktop_entry_spec(text@) == Some((n@, e@, c@)),
            None => desktop_entry_spec(text@) is None,
        },
{
    let lines = lines_of(&chars_of(text));
    let ghost ls = deep(lines@);
    let name_key = chars_of("Name=");
    let exec_key = chars_of("Exec=");
    let distrobox = chars_of("X-Distrobox-Container=");
    let toolbx = chars_of("X-Toolbx-Container=");
    proof {
        reveal_strlit("Name=");
        reveal_strlit("Exec=");
        reveal_strlit("X-Distrobox-Container=");
        reveal_strlit("X-Toolbx-Container=");
    }
    let mut name: Vec<char> = Vec::new();
    let mut exec: Vec<char> = Vec::new();
    let mut container: Vec<char> = Vec::new();
    let n = lines.len();
    let mut i: usize = 0;
    assert(ls.take(0) =~= Seq::<Seq<char>>::empty());
    while i < n
        invariant
            i <= n,
            n == lines@.len(),
            ls == deep(lines@),
            name_key@ == "Name="@,
            exec_key@ == "Exec="@,
            distrobox@ == "X-Distrobox-Container="@,
            toolbx@ == "X-Toolbx-Container="@,
            name_key@.len() == 5,
            exec_key@.len() == 5,
            distrobox@.len() == 22,
            toolbx@.len() == 19,
            (name@, exec@, container@) == desktop_scan(ls.take(i as int)),
        decreases n - i,
    {
        proof {
            assert(ls.take(i + 1).drop_last() =~= ls.take(i as int));
            assert(ls.take(i + 1).last() == lines@[i as int]@);
        }
        let l = &lines[i];
        if starts_with_chars(l, &name_key) {
            if name.len() == 0 {
                name = slice_chars(l, 5, l.len());
                assert(name@ =~= l@.skip(5));
            }
        } else if starts_with_chars(l, &exec_key) {
            if exec.len() == 0 {
                let rest = slice_chars(l, 5, l.len());
                assert(rest@ =~= l@.skip(5));
                exec = trim_quotes_exec(&first_word_of(&rest));
            }
        } else if starts_with_chars(l, &distrobox) {
            container = slice_chars(l, 22, l.len());
            assert(container@ =~= l@.skip(22));
        } else if starts_with_chars(l, &toolbx) {
            container = slice_chars(l, 19, l.len());
            assert(container@ =~= l@.skip(19));
        }
        i = i + 1;
    }
    assert(ls.take(n as int) =~= ls);
    if name.len() > 0 {
        Some((string_of(&name), string_of(&exec), string_of(&container)))
    } else {
        None
    }
}

/// What a relevant desktop entry leads to.
pub enum DesktopTarget {
    /// The entry is not relevant to the query.
    Skip,
    /// An application exported from a container.
    Container(Match),
    /// The entry runs a program, which the caller examines.
    Program,
}

/// A desktop entry (name, program, container, at `desktop`) is relevant
/// when its name, program or file stem is; it leads to a container export
/// when it names a container, and to its program otherwise.
pub open spec fn desktop_relevant(
    name: Seq<char>,
    exec: Seq<char>,
    desktop: Seq<char>,
    query: Seq<char>,
) -> bool {
    relevant_spec(query, seq![name, exec, stem_of(or_empty(file_name_spec(desktop)))])
}

pub open spec fn container_found(name: Seq<char>, container: Seq<char>, desktop: Seq<char>) -> Found {
    Found {
        profile: container,
        source: Some(desktop),
        role: Role::Explicit,
        ..found("Container Export"@, desktop, name)
    }
}

pub fn desktop_target(name: &str, exec: &str, container: &str, desktop: &str, query: &str) -> (r: DesktopTarget)
    ensures
        !desktop_relevant(name@, exec@, desktop@, query@) ==> r is Skip,
        desktop_relevant(name@, exec@, desktop@, query@) && container@.len() > 0 ==> (r matches DesktopTarget::Container(m) && shows(m, container_found(name@, container@, desktop@))),
        desktop_relevant(name@, exec@, desktop@, query@) && container@.len() == 0 ==> r is Program,
{
    let stem = match file_name(desktop) {
        Some(n) => stem_exec(&n),
        None => stem_exec(&Vec::new()),
    };
    let ss = string_of(&stem);
    let values = [name, exec, ss.as_str()];
    let hit = relevant(query, &values);
    proof {
        if file_name_spec(desktop@) is None {
            assert(or_empty(file_name_spec(desktop@)) =~= Seq::<char>::empty());
        }
    }
    assert(views(values@) =~= seq![name@, exec@, stem_of(or_empty(file_name_spec(desktop@)))]);
    if !hit {
        return DesktopTarget::Skip;
    }
    if container.is_empty() {
        return DesktopTarget::Program;
    }
    let dc = chars_of(desktop);
    let nc = chars_of(name);
    let mut m = fresh("Container Export", &dc, &nc);
    m.profile = owned(container);
    m.source_path = Some(owned(desktop));
    m.role = Role::Explicit;
    DesktopTarget::Container(m)
}

/// The AppImage that a desktop entry runs.
pub fn desktop_appimage(exec: &str, name: &str, size: Option<u64>) -> (r: Match)
    ensures
        shows(
            r,
            Found {
                source: Some(exec@),
                role: Role::Explicit,
                size: match size {
                    Some(v) => Some(v as nat),
                    None => None,
                },
                ..found("AppImage"@, exec@, name@)
            },
        ),
{
    let ec = chars_of(exec);
    let nc = chars_of(name);
    let mut m = fresh("AppImage", &ec, &nc);
    m.source_path = Some(owned(exec));
    m.role = Role::Explicit;
    m.installed_size_bytes = size;
    m
}

/// Launchers whose owner says nothing about the application.
pub open spec fn launcher(command: Seq<char>) -> bool {
    command == "env"@ || command == "flatpak"@ || command == "snap"@ || command == "sh"@ || command
        == "bash"@ || command == "distrobox"@ || command == "toolbox"@
}

/// The command whose owner a desktop entry's program leads to: its file
/// name, unless it is a generic launcher.
pub fn desktop_command(exec: &str) -> (r: Option<String>)
    ensures
        match r {
            Some(c) => file_name_spec(exec@) == Some(c@) && !launcher(c@),
            None => file_name_spec(exec@) is None || launcher(file_name_spec(exec@)->Some_0),
        },
{
    match file_name(exec) {
        Some(n) => {
            let c = string_of(&n);
            let s = c.as_str();
            if str_eq(s, "env") || str_eq(s, "flatpak") || str_eq(s, "snap") || str_eq(s, "sh")
                || str_eq(s, "bash") || str_eq(s, "distrobox") || str_eq(s, "toolbox") {
                None
            } else {
                Some(c)
            }
        },
        None => None,
    }
}

/// A command's owner that is not a standalone file.
pub open spec fn not_standalone(m: Match) -> Option<Match> {
    if m.backend@ == "Standalone"@ {
        None
    } else {
        Some(m)
    }
}

/// The owners of a command that are not standalone files, in order.
pub open spec fn kept_owners(owners: Seq<Match>) -> Seq<Match> {
    gather(owners, |m: Match| not_standalone(m))
}

/// The owners of a desktop entry's command, under the entry's name; a
/// standalone file is no owner here.
pub fn desktop_owners(owners: Vec<Match>, name: &str) -> (r: Vec<Match>)
    ensures
        r@.len() == kept_owners(owners@).len(),
        forall|i: int|
            0 <= i < r@.len() ==> #[trigger] r@[i] == (Match { name: r@[i].name, ..kept_owners(owners@)[i] })
                && r@[i].name@ == name@,
{
    let ghost f = |m: Match| not_standalone(m);
    let mut out: Vec<Match> = Vec::new();
    let mut i: usize = 0;
    assert(owners@.take(0) =~= Seq::<Match>::empty());
    while i < owners.len()
        invariant
            i <= owners@.len(),
            f == (|m: Match| not_standalone(m)),
            out@.len() == gather(owners@.take(i as int), f).len(),
            forall|k: int|
                0 <= k < out@.len() ==> #[trigger] out@[k] == (Match { name: out@[k].name, ..gather(owners@.take(i as int), f)[k] })
                    && out@[k].name@ == name@,
        decreases owners@.len() - i,
    {
        let ghost before = owners@.take(i as int);
        proof {
            assert(owners@.take(i + 1) =~= before.push(owners@[i as int]));
            lemma_gather_push(before, owners@[i as int], f);
        }
        if !str_eq(owners[i].backend.as_str(), "Standalone") {
            let mut m = owners[i].duplicate();
            m.name = owned(name);
            let ghost prev = out@;
            out.push(m);
            assert forall|k: int| 0 <= k < out@.len() implies #[trigger] out@[k] == (Match { name: out@[k].name, ..gather(owners@.take(i + 1), f)[k] })
                && out@[k].name@ == name@ by {
                if k < prev.len() {
                    assert(gather(owners@.take(i + 1), f)[k] == gather(before, f)[k]);
                    assert(out@[k] == prev[k]);
                }
            }
        }
        i = i + 1;
    }
    assert(owners@.take(owners@.len() as int) =~= owners@);
    out
}

} // verus!
