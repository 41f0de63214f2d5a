//! Which installed package owns a command: reading what each package
//! manager reports about the command's file, and when the file itself is
//! offered instead.
use crate::discovery::{
    name_version_spec, portage_world_contains, safe_standalone_spec, split_name_version,
    world_contains_spec,
};
use crate::lines::{
    lines_of, lines_spec, split_chars, split_on, words_of, words_spec,
};
use crate::model::{texts, Match, Role};
use crate::number::{parse_u64, unsigned_value};
use crate::provenance::{field_value, opt_texts_of, record_view, KeyRecord};
use crate::text::{
    after_last_index, chars_eq, chars_of, contains_chars, contains_seq, copy_chars, occurs_at, owned,
    push_char, push_str, rfind_after, slice_chars, str_eq, string_of, trim_chars, trim_spec,
};
use crate::util::{deep, file_name, file_name_spec, path_within, path_within_spec};
use vstd::prelude::*;

verus! {

// ---------------------------------------------------------------------------
// Fields of a report
// ---------------------------------------------------------------------------

/// The tab-separated fields of a trimmed report.
pub open spec fn tab_fields(text: Seq<char>) -> Seq<Seq<char>> {
    split_on(trim_spec(text), '\t')
}

/// A field, or nothing when the report is shorter.
pub open spec fn field_or_empty(fields: Seq<Seq<char>>, i: int) -> Seq<char> {
    if 0 <= i < fields.len() {
        fields[i]
    } else {
        Seq::empty()
    }
}

/// A size field, when it is present and a number.
pub open spec fn size_field(fields: Seq<Seq<char>>, i: int) -> Option<nat> {
    if 0 <= i < fields.len() {
        unsigned_value(fields[i], u64::MAX as nat)
    } else {
        None
    }
}

pub open spec fn nat_of(o: Option<u64>) -> Option<nat> {
    match o {
        Some(v) => Some(v as nat),
        None => None,
    }
}

/// A result that a package manager reported as the owner of `visible`:
/// everything the report gave, the command, and nothing else.
pub open spec fn owner_item(
    m: Match,
    backend: Seq<char>,
    id: Seq<char>,
    name: Seq<char>,
    version: Seq<char>,
    architecture: Seq<char>,
    summary: Seq<char>,
    size: Option<nat>,
    role: Role,
    origin: Seq<char>,
    scope: Seq<char>,
    visible: Seq<char>,
) -> bool {
    &&& m.backend@ == backend
    &&& m.id@ == id
    &&& m.name@ == name
    &&& m.version@ == version
    &&& m.architecture@ == architecture
    &&& m.summary@ == summary
    &&& nat_of(m.installed_size_bytes) == size
    &&& m.role == role
    &&& m.origin@ == origin
    &&& m.scope@ == scope
    &&& opt_texts_of(m.command_path) == Some(visible)
    &&& m.source_path is None
    &&& m.reason@ == Seq::<char>::empty()
    &&& m.profile@ == Seq::<char>::empty()
    &&& m.installation@ == Seq::<char>::empty()
    &&& m.evidence@ == Seq::<char>::empty()
}

fn owned_match(
    backend: &str,
    id: &[char],
    name: &[char],
    version: &[char],
    architecture: &[char],
    summary: &[char],
    size: Option<u64>,
    role: Role,
    origin: &[char],
    scope: &str,
    visible: &str,
) -> (r: Match)
    ensures
        owner_item(
            r,
            backend@,
            id@,
            name@,
            version@,
            architecture@,
            summary@,
            nat_of(size),
            role,
            origin@,
            scope@,
            visible@,
        ),
{
    let i = string_of(id);
    let n = string_of(name);
    let mut m = Match::new(backend, i.as_str(), n.as_str());
    m.version = string_of(version);
    m.architecture = string_of(architecture);
    m.summary = string_of(summary);
    m.installed_size_bytes = size;
    m.role = role;
    m.origin = string_of(origin);
    m.scope = owned(scope);
    m.command_path = Some(owned(visible));
    m
}

fn fields_of(text: &str) -> (r: Vec<Vec<char>>)
    ensures
        deep(r@) == tab_fields(text@),
{
    let t = trim_chars(&chars_of(text));
    split_chars(&t, '\t')
}

fn field_at(fields: &Vec<Vec<char>>, i: usize) -> (r: Vec<char>)
    ensures
        r@ == field_or_empty(deep(fields@), i as int),
{
    if i < fields.len() {
        copy_chars(&fields[i])
    } else {
        Vec::new()
    }
}

fn size_at(fields: &Vec<Vec<char>>, i: usize) -> (r: Option<u64>)
    ensures
        nat_of(r) == size_field(deep(fields@), i as int),
{
    if i < fields.len() {
        let text = string_of(&fields[i]);
        parse_u64(text.as_str())
    } else {
        None
    }
}

// ---------------------------------------------------------------------------
// RPM
// ---------------------------------------------------------------------------

/// What the RPM database says of a file.
pub enum RpmOwner {
    /// The package that owns it.
    Owned(Match),
    /// It belongs to the rpm-ostree base image, not a layered package.
    Base,
    /// No package owns it.
    Unknown,
}

/// `rpm -qf` printed a name and a version.
pub open spec fn rpm_found(text: Seq<char>) -> bool {
    let f = tab_fields(text);
    f.len() >= 2 && f[0].len() > 0
}

/// The package id: the name, with the architecture when there is one.
pub open spec fn rpm_id(f: Seq<Seq<char>>) -> Seq<char> {
    let arch = field_or_empty(f, 2);
    if arch.len() == 0 {
        f[0]
    } else {
        f[0] + seq!['.'] + arch
    }
}

/// Reads `name, version-release, arch, summary, size` as `rpm -qf`
/// printed them for `visible`.  On rpm-ostree a package outside the
/// layered ones is part of the base image.
pub fn rpm_owner(kind: &str, text: &str, layered: &Option<Vec<String>>, visible: &str) -> (r: RpmOwner)
    ensures
        r is Unknown <==> !rpm_found(text@),
        r is Base <==> rpm_found(text@) && kind@ == "RPM-OSTree"@ && match layered {
            Some(v) => !texts(v@).contains(tab_fields(text@)[0]),
            None => false,
        },
        r matches RpmOwner::Owned(m) ==> {
            let f = tab_fields(text@);
            owner_item(
                m,
                kind@,
                rpm_id(f),
                f[0],
                f[1],
                field_or_empty(f, 2),
                field_or_empty(f, 3),
                size_field(f, 4),
                Role::Unknown,
                Seq::empty(),
                "system"@,
                visible@,
            )
        },
{
    let fields = fields_of(text);
    let ghost f = tab_fields(text@);
    if fields.len() < 2 || fields[0].len() == 0 {
        assert(fields.len() >= 2 ==> f[0] == fields@[0]@);
        return RpmOwner::Unknown;
    }
    assert(f[0] == fields@[0]@);
    assert(f[1] == fields@[1]@);
    let name = &fields[0];
    if str_eq(kind, "RPM-OSTree") {
        match layered {
            Some(items) => {
                let mut listed = false;
                for i in 0..items.len()
                    invariant
                        listed <==> exists|j: int|
                            0 <= j < i && #[trigger] texts(items@)[j] == name@,
                {
                    assert(texts(items@)[i as int] == items@[i as int]@);
                    let candidate = chars_of(items[i].as_str());
                    if chars_eq(&candidate, name) {
                        listed = true;
                    }
                }
                if !listed {
                    assert(!texts(items@).contains(f[0]));
                    return RpmOwner::Base;
                }
            },
            None => {},
        }
    }
    let arch = field_at(&fields, 2);
    let mut id = copy_chars(name);
    if arch.len() > 0 {
        id.push('.');
        let mut k: usize = 0;
        let ghost start = id@;
        while k < arch.len()
            invariant
                k <= arch@.len(),
                id@ == start + arch@.take(k as int),
            decreases arch@.len() - k,
        {
            id.push(arch[k]);
            assert(arch@.take(k + 1) =~= arch@.take(k as int).push(arch@[k as int]));
            k = k + 1;
        }
        assert(arch@.take(arch@.len() as int) =~= arch@);
    }
    assert(id@ =~= rpm_id(f));
    let summary = field_at(&fields, 3);
    let size = size_at(&fields, 4);
    let empty: Vec<char> = Vec::new();
    RpmOwner::Owned(
        owned_match(
            kind,
            &id,
            name,
            &fields[1],
            &arch,
            &summary,
            size,
            Role::Unknown,
            &empty,
            "system",
            visible,
        ),
    )
}

// ---------------------------------------------------------------------------
// dpkg
// ---------------------------------------------------------------------------

/// `: ` starts at position `at` of a line.
pub open spec fn separator_at(line: Seq<char>, at: int) -> bool {
    0 <= at && at + 2 <= line.len() && line[at] == ':' && line[at + 1] == ' '
}

/// The package named before the last `: ` of a `dpkg-query -S` line.
pub open spec fn dpkg_search_owner(line: Seq<char>) -> Option<Seq<char>> {
    if exists|at: int| #[trigger] separator_at(line, at) {
        let at = choose|at: int|
            #[trigger] separator_at(line, at) && forall|later: int|
                at < later ==> !#[trigger] separator_at(line, later);
        Some(line.take(at))
    } else {
        None
    }
}

/// `str::rsplit_once(": ")` on a `dpkg-query -S` line: the owning package.
pub fn dpkg_search_line(line: &str) -> (r: Option<String>)
    ensures
        opt_texts_of(r) == dpkg_search_owner(line@),
{
    let cs = chars_of(line);
    if cs.len() < 2 {
        assert(forall|at: int| !#[trigger] separator_at(line@, at));
        return None;
    }
    let mut at: usize = cs.len() - 1;
    while at > 0
        invariant
            cs@ == line@,
            cs@.len() >= 2,
            at <= cs@.len() - 1,
            forall|later: int| at <= later ==> !#[trigger] separator_at(line@, later),
        decreases at,
    {
        let k = at - 1;
        if cs[k] == ':' && cs[k + 1] == ' ' {
            assert(separator_at(line@, k as int));
            assert(forall|later: int| k < later ==> !#[trigger] separator_at(line@, later));
            let ghost chosen = choose|x: int|
                #[trigger] separator_at(line@, x) && forall|later: int|
                    x < later ==> !#[trigger] separator_at(line@, later);
            assert(chosen == k) by {
                if chosen < k {
                    assert(!separator_at(line@, k as int));
                } else if chosen > k {
                    assert(!separator_at(line@, chosen));
                }
            }
            let head = slice_chars(&cs, 0, k);
            assert(head@ =~= line@.take(k as int));
            return Some(string_of(&head));
        }
        assert(!separator_at(line@, k as int));
        at = k;
    }
    None
}

/// `dpkg-query -W` reported the package installed: the second byte of its
/// status is `i`.
pub open spec fn dpkg_installed(status: Seq<char>) -> bool {
    status.len() >= 2 && (status[0] as u32) < 0x80 && status[1] == 'i'
}

pub open spec fn kib_size(fields: Seq<Seq<char>>, i: int) -> Option<nat> {
    match size_field(fields, i) {
        Some(k) => if k * 1024 <= u64::MAX {
            Some(k * 1024)
        } else {
            None
        },
        None => None,
    }
}

/// Reads `status, package, version, summary, size in KiB` as `dpkg-query
/// -W` printed them for the owner of `visible`; a package that is not
/// installed owns nothing.  A size too large to count in bytes is left
/// unknown.
pub fn dpkg_owner(details: &str, visible: &str) -> (r: Option<Match>)
    ensures
        r is Some <==> ({
            let f = tab_fields(details@);
            f.len() >= 3 && dpkg_installed(f[0])
        }),
        r matches Some(m) ==> {
            let f = tab_fields(details@);
            owner_item(
                m,
                "APT"@,
                f[1],
                f[1],
                f[2],
                Seq::empty(),
                field_or_empty(f, 3),
                kib_size(f, 4),
                Role::Unknown,
                Seq::empty(),
                "system"@,
                visible@,
            )
        },
{
    let fields = fields_of(details);
    let ghost f = tab_fields(details@);
    if fields.len() < 3 {
        return None;
    }
    assert(f[0] == fields@[0]@);
    assert(f[1] == fields@[1]@);
    assert(f[2] == fields@[2]@);
    let status = &fields[0];
    if !(status.len() >= 2 && (status[0] as u32) < 0x80 && status[1] == 'i') {
        return None;
    }
    let summary = field_at(&fields, 3);
    let size = match size_at(&fields, 4) {
        Some(k) => k.checked_mul(1024),
        None => None,
    };
    let empty: Vec<char> = Vec::new();
    Some(
        owned_match(
            "APT",
            &fields[1],
            &fields[1],
            &fields[2],
            &empty,
            &summary,
            size,
            Role::Unknown,
            &empty,
            "system",
            visible,
        ),
    )
}

// ---------------------------------------------------------------------------
// Pacman
// ---------------------------------------------------------------------------

/// Whether a text contains `dependency` in any ASCII case.
pub open spec fn mentions_dependency(s: Seq<char>) -> bool {
    contains_seq(crate::lines::ascii_lower_seq(s), "dependency"@)
}

pub open spec fn value_or_empty(v: Option<Seq<char>>) -> Seq<char> {
    match v {
        Some(s) => s,
        None => Seq::empty(),
    }
}

/// A dependency when the install reason says so, explicit otherwise.
pub open spec fn pacman_role(fields: Seq<(Seq<char>, Seq<char>)>) -> Role {
    match field_value(fields, "Install Reason"@) {
        Some(reason) => if mentions_dependency(reason) {
            Role::Dependency
        } else {
            Role::Explicit
        },
        None => Role::Explicit,
    }
}

fn value_of(record: &KeyRecord, key: &str) -> (r: Vec<char>)
    ensures
        r@ == value_or_empty(field_value(record_view(*record), key@)),
{
    match record.get(key) {
        Some(v) => chars_of(v.as_str()),
        None => Vec::new(),
    }
}

/// The package that `pacman -Qi` described for the owner `name` of
/// `visible`; `size` is its installed size as the caller read it.
pub fn pacman_owner(record: &KeyRecord, name: &str, size: Option<u64>, visible: &str) -> (r: Match)
    ensures
        ({
            let fields = record_view(*record);
            let id = match field_value(fields, "Name"@) {
                Some(n) => n,
                None => name@,
            };
            owner_item(
                r,
                "Pacman"@,
                id,
                id,
                value_or_empty(field_value(fields, "Version"@)),
                Seq::empty(),
                value_or_empty(field_value(fields, "Description"@)),
                nat_of(size),
                pacman_role(fields),
                Seq::empty(),
                "system"@,
                visible@,
            )
        }),
{
    let id = match record.get("Name") {
        Some(n) => chars_of(n.as_str()),
        None => chars_of(name),
    };
    let version = value_of(record, "Version");
    let summary = value_of(record, "Description");
    let role = match record.get("Install Reason") {
        Some(reason) => {
            let lower = crate::lines::ascii_lower_chars(&chars_of(reason.as_str()));
            let word = chars_of("dependency");
            if contains_chars(&lower, &word) {
                Role::Dependency
            } else {
                Role::Explicit
            }
        },
        None => Role::Explicit,
    };
    let empty: Vec<char> = Vec::new();
    owned_match("Pacman", &id, &id, &version, &empty, &summary, size, role, &empty, "system", visible)
}

// ---------------------------------------------------------------------------
// Managers that report owners by name
// ---------------------------------------------------------------------------

/// The first package whose name occurs in what the manager printed.
pub open spec fn first_named_in(names: Seq<Seq<char>>, text: Seq<char>) -> Option<int> {
    if exists|i: int| 0 <= i < names.len() && contains_seq(text, #[trigger] names[i]) {
        Some(
            choose|i: int|
                0 <= i < names.len() && contains_seq(text, names[i]) && forall|j: int|
                    0 <= j < i ==> !contains_seq(text, #[trigger] names[j]),
        )
    } else {
        None
    }
}

/// Which of the known packages the owner report names: the first whose
/// name occurs in the text.
pub fn first_named(names: &Vec<String>, text: &str) -> (r: Option<usize>)
    ensures
        match r {
            Some(i) => first_named_in(texts(names@), text@) == Some(i as int),
            None => first_named_in(texts(names@), text@) is None,
        },
{
    let hay = chars_of(text);
    for i in 0..names.len()
        invariant
            hay@ == text@,
            forall|j: int| 0 <= j < i ==> !contains_seq(text@, #[trigger] texts(names@)[j]),
    {
        assert(texts(names@)[i as int] == names@[i as int]@);
        let needle = chars_of(names[i].as_str());
        if contains_chars(&hay, &needle) {
            let ghost ns = texts(names@);
            let ghost c = choose|x: int|
                0 <= x < ns.len() && contains_seq(text@, ns[x]) && forall|j: int|
                    0 <= j < x ==> !contains_seq(text@, #[trigger] ns[j]);
            assert(c == i as int) by {
                if c < i {
                } else if c > i {
                    assert(!contains_seq(text@, ns[i as int]));
                }
            }
            return Some(i);
        }
    }
    None
}

// ---------------------------------------------------------------------------
// Portage
// ---------------------------------------------------------------------------

/// A `CONTENTS` line lists the path as its second word.
pub open spec fn contents_line_lists(line: Seq<char>, resolved: Seq<char>, visible: Seq<char>) -> bool {
    let w = words_spec(line);
    w.len() >= 2 && (w[1] == resolved || w[1] == visible)
}

pub open spec fn contents_lists(contents: Seq<char>, resolved: Seq<char>, visible: Seq<char>) -> bool {
    exists|i: int|
        0 <= i < lines_spec(contents).len() && contents_line_lists(
            #[trigger] lines_spec(contents)[i],
            resolved,
            visible,
        )
}

/// Whether a Portage `CONTENTS` file lists the command's file.
pub fn portage_contents_lists(contents: &str, resolved: &str, visible: &str) -> (r: bool)
    ensures
        r == contents_lists(contents@, resolved@, visible@),
{
    let lines = lines_of(&chars_of(contents));
    let a = chars_of(resolved);
    let b = chars_of(visible);
    let ghost ls = lines_spec(contents@);
    for i in 0..lines.len()
        invariant
            deep(lines@) == ls,
            ls == lines_spec(contents@),
            a@ == resolved@,
            b@ == visible@,
            forall|j: int| 0 <= j < i ==> !contents_line_lists(#[trigger] ls[j], resolved@, visible@),
    {
        assert(ls[i as int] == lines@[i as int]@);
        let words = words_of(&lines[i]);
        if words.len() >= 2 {
            assert(deep(words@)[1] == words@[1]@);
            if chars_eq(&words[1], &a) || chars_eq(&words[1], &b) {
                return true;
            }
        }
    }
    false
}

// ---------------------------------------------------------------------------
// Slackware
// ---------------------------------------------------------------------------

/// A path without its leading `.` and then `/` characters.
pub open spec fn strip_leading(s: Seq<char>, c: char) -> Seq<char>
    decreases s.len(),
{
    if s.len() > 0 && s[0] == c {
        strip_leading(s.drop_first(), c)
    } else {
        s
    }
}

/// A line of a Slackware package list names the file.
pub open spec fn slackware_line_lists(line: Seq<char>, resolved: Seq<char>, visible: Seq<char>) -> bool {
    let p = strip_leading(strip_leading(line, '.'), '/');
    p == strip_leading(resolved, '/') || p == strip_leading(visible, '/')
}

pub open spec fn slackware_lists(text: Seq<char>, resolved: Seq<char>, visible: Seq<char>) -> bool {
    exists|i: int|
        0 <= i < lines_spec(text).len() && slackware_line_lists(
            #[trigger] lines_spec(text)[i],
            resolved,
            visible,
        )
}

fn strip_leading_chars(s: &Vec<char>, c: char) -> (r: Vec<char>)
    ensures
        r@ == strip_leading(s@, c),
{
    let mut i: usize = 0;
    assert(s@.skip(0) =~= s@);
    while i < s.len() && s[i] == c
        invariant
            i <= s@.len(),
            strip_leading(s@, c) == strip_leading(s@.skip(i as int), c),
        decreases s@.len() - i,
    {
        assert(s@.skip(i as int).drop_first() =~= s@.skip(i + 1));
        i = i + 1;
    }
    assert(s@.skip(i as int).len() > 0 ==> s@.skip(i as int)[0] == s@[i as int]);
    slice_chars(s, i, s.len())
}

/// Whether a Slackware package list names the command's file.
pub fn slackware_package_lists(text: &str, resolved: &str, visible: &str) -> (r: bool)
    ensures
        r == slackware_lists(text@, resolved@, visible@),
{
    let lines = lines_of(&chars_of(text));
    let a = strip_leading_chars(&chars_of(resolved), '/');
    let b = strip_leading_chars(&chars_of(visible), '/');
    let ghost ls = lines_spec(text@);
    for i in 0..lines.len()
        invariant
            deep(lines@) == ls,
            ls == lines_spec(text@),
            a@ == strip_leading(resolved@, '/'),
            b@ == strip_leading(visible@, '/'),
            forall|j: int|
                0 <= j < i ==> !slackware_line_lists(#[trigger] ls[j], resolved@, visible@),
    {
        assert(ls[i as int] == lines@[i as int]@);
        let p = strip_leading_chars(&strip_leading_chars(&lines[i], '.'), '/');
        if chars_eq(&p, &a) || chars_eq(&p, &b) {
            return true;
        }
    }
    false
}

/// The pieces of `rsplitn(4, '-')`: up to three pieces split off the end,
/// then the rest.
pub open spec fn rsplit_dash(s: Seq<char>, n: nat) -> Seq<Seq<char>>
    decreases n,
{
    if n <= 1 {
        seq![s]
    } else {
        let k = after_last_index(s, '-');
        if k == 0 {
            seq![s]
        } else {
            seq![s.skip(k)] + rsplit_dash(s.take(k - 1), (n - 1) as nat)
        }
    }
}

/// A Slackware package file `name-version-arch-build`: its name and
/// version.
pub open spec fn slackware_name(package: Seq<char>) -> Seq<char> {
    let f = rsplit_dash(package, 4);
    if f.len() > 3 {
        f[3]
    } else {
        package
    }
}

pub open spec fn slackware_version(package: Seq<char>) -> Seq<char> {
    field_or_empty(rsplit_dash(package, 4), 2)
}

pub(crate) fn rsplit_dash_pieces(s: &Vec<char>, n: usize) -> (r: Vec<Vec<char>>)
    ensures
        deep(r@) == rsplit_dash(s@, n as nat),
    decreases n,
{
    let mut out: Vec<Vec<char>> = Vec::new();
    if n <= 1 {
        out.push(copy_chars(s));
        assert(deep(out@) =~= seq![s@]);
        return out;
    }
    let k = rfind_after(s, '-');
    if k == 0 {
        out.push(copy_chars(s));
        assert(deep(out@) =~= seq![s@]);
        return out;
    }
    proof {
        crate::text::lemma_after_last_index(s@, '-');
    }
    let tail = slice_chars(s, k, s.len());
    let head = slice_chars(s, 0, k - 1);
    assert(tail@ =~= s@.skip(k as int));
    assert(head@ =~= s@.take(k - 1));
    let rest = rsplit_dash_pieces(&head, n - 1);
    out.push(tail);
    let mut i: usize = 0;
    while i < rest.len()
        invariant
            i <= rest@.len(),
            deep(out@) == seq![tail@] + deep(rest@).take(i as int),
        decreases rest@.len() - i,
    {
        let ghost before = deep(out@);
        let piece = copy_chars(&rest[i]);
        out.push(piece);
        assert(deep(out@) =~= before.push(rest@[i as int]@));
        assert(deep(rest@).take(i + 1) =~= deep(rest@).take(i as int).push(rest@[i as int]@));
        assert(deep(out@) =~= seq![tail@] + deep(rest@).take(i + 1));
        i = i + 1;
    }
    assert(deep(rest@).take(rest@.len() as int) =~= deep(rest@));
    out
}

/// The package that a Slackware package list file names, owner of
/// `visible`.
pub fn slackware_owner(package: &str, visible: &str) -> (r: Match)
    ensures
        owner_item(
            r,
            "Slackware"@,
            slackware_name(package@),
            slackware_name(package@),
            slackware_version(package@),
            Seq::empty(),
            Seq::empty(),
            None,
            Role::Unknown,
            Seq::empty(),
            "system"@,
            visible@,
        ),
{
    let cs = chars_of(package);
    let fields = rsplit_dash_pieces(&cs, 4);
    let name = if fields.len() > 3 {
        assert(deep(fields@)[3] == fields@[3]@);
        copy_chars(&fields[3])
    } else {
        copy_chars(&cs)
    };
    let version = field_at(&fields, 2);
    let empty: Vec<char> = Vec::new();
    owned_match(
        "Slackware",
        &name,
        &name,
        &version,
        &empty,
        &empty,
        None,
        Role::Unknown,
        &empty,
        "system",
        visible,
    )
}


// ---------------------------------------------------------------------------
// Portage
// ---------------------------------------------------------------------------

/// `user` for a prefix inside the home directory, `system` otherwise.
pub open spec fn scope_for(path: Seq<char>, home: Seq<char>) -> Seq<char> {
    if path_within_spec(path, home) {
        "user"@
    } else {
        "system"@
    }
}

fn scope_of(path: &str, home: &str) -> (r: &'static str)
    ensures
        r@ == scope_for(path@, home@),
{
    if path_within(path, home) {
        "user"
    } else {
        "system"
    }
}

/// The Portage package in `category/package_dir` (a `name-version`
/// directory under `var/db/pkg`) that owns `visible`.  The caller read the
/// package's `repository` and `SIZE` files and the world file, and says
/// whether the prefix lies in the home directory.
pub fn portage_owner(
    category: &str,
    package_dir: &str,
    repository: &str,
    size: &str,
    world: &str,
    prefix: &str,
    home: &str,
    visible: &str,
) -> (r: Match)
    ensures
        ({
            let (name, version) = name_version_spec(package_dir@);
            let id = category@ + seq!['/'] + name;
            owner_item(
                r,
                "Portage"@,
                id,
                name,
                version,
                Seq::empty(),
                Seq::empty(),
                unsigned_value(trim_spec(size@), u64::MAX as nat),
                if world_contains_spec(world@, id) {
                    Role::Explicit
                } else {
                    Role::Dependency
                },
                trim_spec(repository@),
                scope_for(prefix@, home@),
                visible@,
            )
        }),
{
    let (name, version) = split_name_version(package_dir);
    let mut id = owned(category);
    push_char(&mut id, '/');
    push_str(&mut id, name.as_str());
    assert(id@ =~= category@ + seq!['/'] + name@);
    let role = if portage_world_contains(world, id.as_str()) {
        Role::Explicit
    } else {
        Role::Dependency
    };
    let origin = trim_chars(&chars_of(repository));
    let size_text = string_of(&trim_chars(&chars_of(size)));
    let bytes = parse_u64(size_text.as_str());
    let empty: Vec<char> = Vec::new();
    owned_match(
        "Portage",
        &chars_of(id.as_str()),
        &chars_of(name.as_str()),
        &chars_of(version.as_str()),
        &empty,
        &empty,
        bytes,
        role,
        &origin,
        scope_of(prefix, home),
        visible,
    )
}

// ---------------------------------------------------------------------------
// npm
// ---------------------------------------------------------------------------

/// Where `needle` first occurs in `hay`.
pub open spec fn first_occurrence(hay: Seq<char>, needle: Seq<char>) -> Option<int> {
    if contains_seq(hay, needle) {
        Some(
            choose|at: int|
                occurs_at(hay, needle, at) && forall|k: int|
                    0 <= k < at ==> !#[trigger] occurs_at(hay, needle, k),
        )
    } else {
        None
    }
}

pub open spec fn node_marker() -> Seq<char> {
    "/node_modules/"@
}

/// The text between the first `/node_modules/` and the next one.
pub open spec fn after_node_modules(path: Seq<char>) -> Option<Seq<char>> {
    match first_occurrence(path, node_marker()) {
        Some(at) => {
            let rest = path.skip(at + node_marker().len());
            match first_occurrence(rest, node_marker()) {
                Some(end) => Some(rest.take(end)),
                None => Some(rest),
            }
        },
        None => None,
    }
}

/// The npm package that holds a file under `node_modules`: its first path
/// piece, or the first two when the first is a scope (`@scope/name`).
pub open spec fn node_package_spec(path: Seq<char>) -> Option<Seq<char>> {
    match after_node_modules(path) {
        Some(tail) => {
            let pieces = split_on(tail, '/');
            if pieces[0].len() > 0 && pieces[0][0] == '@' && pieces.len() > 1 {
                Some(pieces[0] + seq!['/'] + pieces[1])
            } else {
                Some(pieces[0])
            }
        },
        None => None,
    }
}

fn first_occurrence_exec(hay: &Vec<char>, needle: &Vec<char>) -> (r: Option<usize>)
    requires
        needle@.len() > 0,
    ensures
        match r {
            Some(at) => {
                &&& first_occurrence(hay@, needle@) == Some(at as int)
                &&& occurs_at(hay@, needle@, at as int)
            },
            None => first_occurrence(hay@, needle@) is None,
        },
{
    if needle.len() > hay.len() {
        assert forall|at: int| !occurs_at(hay@, needle@, at) by {}
        return None;
    }
    let last = hay.len() - needle.len();
    let mut at: usize = 0;
    while at <= last
        invariant
            last == hay@.len() - needle@.len(),
            needle@.len() > 0,
            at <= last + 1,
            needle@.len() <= hay@.len(),
            hay@.len() <= usize::MAX,
            forall|k: int| 0 <= k < at ==> !#[trigger] occurs_at(hay@, needle@, k),
        decreases last + 1 - at,
    {
        let piece = slice_chars(hay, at, at + needle.len());
        assert(piece@ == hay@.subrange(at as int, at + needle@.len()));
        if chars_eq(&piece, needle) {
            assert(occurs_at(hay@, needle@, at as int));
            let ghost c = choose|x: int|
                occurs_at(hay@, needle@, x) && forall|k: int|
                    0 <= k < x ==> !#[trigger] occurs_at(hay@, needle@, k);
            assert(c == at as int) by {
                if c < at {
                } else if c > at {
                }
            }
            return Some(at);
        }
        at = at + 1;
    }
    assert forall|k: int| !occurs_at(hay@, needle@, k) by {
        if 0 <= k < at {
        }
    }
    None
}

#[verifier::rlimit(40)]
fn node_tail(path: &str) -> (r: Option<Vec<char>>)
    ensures
        match r {
            Some(t) => after_node_modules(path@) == Some(t@),
            None => after_node_modules(path@) is None,
        },
{
    let cs = chars_of(path);
    let marker = chars_of("/node_modules/");
    proof {
        reveal_strlit("/node_modules/");
    }
    assert(marker@ == node_marker());
    let at = match first_occurrence_exec(&cs, &marker) {
        Some(at) => at,
        None => return None,
    };
    assert(occurs_at(cs@, marker@, at as int));
    let total = cs.len();
    assert(at + marker@.len() <= total);
    let rest = slice_chars(&cs, at + marker.len(), total);
    assert(rest@ =~= path@.skip(at + node_marker().len()));
    match first_occurrence_exec(&rest, &marker) {
        Some(end) => {
            let t = slice_chars(&rest, 0, end);
            assert(t@ =~= rest@.take(end as int));
            Some(t)
        },
        None => Some(rest),
    }
}

/// The npm package that a file under `node_modules` belongs to.
pub fn node_package(path: &str) -> (r: Option<String>)
    ensures
        opt_texts_of(r) == node_package_spec(path@),
{
    let tail = match node_tail(path) {
        Some(t) => t,
        None => return None,
    };
    let pieces = split_chars(&tail, '/');
    proof {
        crate::lines::lemma_split_on_len(tail@, '/');
    }
    assert(deep(pieces@)[0] == pieces@[0]@);
    let first = &pieces[0];
    if first.len() > 0 && first[0] == '@' && pieces.len() > 1 {
        assert(deep(pieces@)[1] == pieces@[1]@);
        let mut name = string_of(first);
        push_char(&mut name, '/');
        let second = string_of(&pieces[1]);
        push_str(&mut name, second.as_str());
        assert(name@ =~= pieces@[0]@ + seq!['/'] + pieces@[1]@);
        Some(name)
    } else {
        Some(string_of(first))
    }
}

// ---------------------------------------------------------------------------
// The file itself
// ---------------------------------------------------------------------------

/// Whether a query can name a command: a single normal path component.
pub open spec fn command_query_spec(query: Seq<char>) -> bool {
    query.len() > 0 && file_name_spec(query) == Some(query)
}

pub fn command_query(query: &str) -> (r: bool)
    ensures
        r == command_query_spec(query@),
{
    if query.is_empty() {
        return false;
    }
    match file_name(query) {
        Some(n) => {
            let q = chars_of(query);
            chars_eq(&n, &q)
        },
        None => false,
    }
}

/// A file name without its extension, as `Path::file_stem` gives it: a
/// leading dot does not start an extension.
pub open spec fn stem_of(name: Seq<char>) -> Seq<char> {
    let k = after_last_index(name, '.');
    if k <= 1 {
        name
    } else {
        name.take(k - 1)
    }
}

/// The directories that other managers own, which are never offered as
/// standalone files.
pub open spec fn under_managed_directory(path: Seq<char>) -> bool {
    contains_seq(path, "/nix/store/"@) || contains_seq(path, "/node_modules/"@) || contains_seq(
        path,
        "/pipx/venvs/"@,
    ) || contains_seq(path, "/flatpak/"@) || contains_seq(path, "/snap/"@) || contains_seq(
        path,
        "/Cellar/"@,
    )
}

/// The AppImage item for the file `resolved`, reached as `visible`: named
/// by its file stem, or by the query when it has none.
pub open spec fn appimage_item(
    m: Match,
    resolved: Seq<char>,
    visible: Seq<char>,
    query: Seq<char>,
    home: Seq<char>,
    size: Option<u64>,
) -> bool {
    &&& m.backend@ == "AppImage"@
    &&& m.id@ == resolved
    &&& m.name@ == match file_name_spec(resolved) {
        Some(n) => stem_of(n),
        None => query,
    }
    &&& opt_texts_of(m.source_path) == Some(resolved)
    &&& opt_texts_of(m.command_path) == if crate::paths::same_path(visible, resolved) {
        None
    } else {
        Some(visible)
    }
    &&& m.scope@ == scope_for(resolved, home)
    &&& m.role == Role::Explicit
    &&& m.installed_size_bytes == size
    &&& m.version@ == Seq::<char>::empty()
    &&& m.reason@ == Seq::<char>::empty()
    &&& m.architecture@ == Seq::<char>::empty()
    &&& m.profile@ == Seq::<char>::empty()
    &&& m.installation@ == Seq::<char>::empty()
    &&& m.origin@ == Seq::<char>::empty()
    &&& m.summary@ == Seq::<char>::empty()
    &&& m.evidence@ == Seq::<char>::empty()
}

/// An AppImage that is itself the command (`resolved`, reached as
/// `visible`), offered for direct removal only where files may be removed
/// directly: under the home directory, `/usr/local` or `/opt`.
pub fn appimage_owner(resolved: &str, visible: &str, query: &str, home: &str, size: Option<u64>) -> (r: Option<Match>)
    ensures
        r is Some <==> safe_standalone_spec(resolved@, home@),
        r matches Some(m) ==> appimage_item(m, resolved@, visible@, query@, home@, size),
{
    if !crate::discovery::safe_standalone(resolved, home) {
        return None;
    }
    let name = match file_name(resolved) {
        Some(n) => {
            let k = rfind_after(&n, '.');
            if k <= 1 {
                string_of(&n)
            } else {
                let head = slice_chars(&n, 0, k - 1);
                assert(head@ =~= n@.take(k - 1));
                string_of(&head)
            }
        },
        None => owned(query),
    };
    let mut item = Match::new("AppImage", resolved, name.as_str());
    item.source_path = Some(owned(resolved));
    item.command_path = if crate::paths::same_path_exec(visible, resolved) {
        None
    } else {
        Some(owned(visible))
    };
    item.scope = owned(scope_of(resolved, home));
    item.role = Role::Explicit;
    item.installed_size_bytes = size;
    Some(item)
}

/// A command file that no manager owns, offered for direct removal when it
/// lies where files may be removed directly and outside the directories
/// that other managers own.
pub fn standalone_owner(visible: &str, resolved: &str, query: &str, home: &str, size: Option<u64>) -> (r: Option<Match>)
    ensures
        r is Some <==> safe_standalone_spec(visible@, home@) && !under_managed_directory(resolved@),
        r matches Some(m) ==> {
            &&& m.backend@ == "Standalone"@
            &&& m.id@ == visible@
            &&& m.name@ == query@
            &&& opt_texts_of(m.source_path) == Some(visible@)
            &&& opt_texts_of(m.command_path) == Some(visible@)
            &&& m.scope@ == scope_for(visible@, home@)
            &&& m.role == Role::Explicit
            &&& m.installed_size_bytes == size
            &&& m.version@ == Seq::<char>::empty()
            &&& m.reason@ == Seq::<char>::empty()
            &&& m.architecture@ == Seq::<char>::empty()
            &&& m.profile@ == Seq::<char>::empty()
            &&& m.installation@ == Seq::<char>::empty()
            &&& m.origin@ == Seq::<char>::empty()
            &&& m.summary@ == Seq::<char>::empty()
            &&& m.evidence@ == Seq::<char>::empty()
        },
{
    if !crate::discovery::safe_standalone(visible, home) {
        return None;
    }
    let path = chars_of(resolved);
    if contains_chars(&path, &chars_of("/nix/store/")) || contains_chars(
        &path,
        &chars_of("/node_modules/"),
    ) || contains_chars(&path, &chars_of("/pipx/venvs/")) || contains_chars(
        &path,
        &chars_of("/flatpak/"),
    ) || contains_chars(&path, &chars_of("/snap/")) || contains_chars(
        &path,
        &chars_of("/Cellar/"),
    ) {
        return None;
    }
    let mut item = Match::new("Standalone", visible, query);
    item.source_path = Some(owned(visible));
    item.command_path = Some(owned(visible));
    item.scope = owned(scope_of(visible, home));
    item.role = Role::Explicit;
    item.installed_size_bytes = size;
    Some(item)
}


// ---------------------------------------------------------------------------
// The order of the owner search
// ---------------------------------------------------------------------------

/// Where the search for a command's owner asks next.
#[derive(Debug, Clone, Copy, PartialEq, Eq, Structural)]
pub enum OwnerSearch {
    Rpm,
    Dpkg,
    Pacman,
    Apk,
    Opkg,
    Xbps,
    Eopkg,
    Portage,
    Slackware,
    Npm,
    Homebrew,
    AppImage,
    Standalone,
}

/// What one place answered: it owns the command, the command belongs to
/// the rpm-ostree base image, or it does not own it.
#[derive(Debug, Clone, Copy, PartialEq, Eq, Structural)]
pub enum OwnerAnswer {
    Owned,
    BaseImage,
    NotOwned,
}

/// What the search does next: ask another place, report the owner found,
/// or end without a result.
#[derive(Debug, Clone, Copy, PartialEq, Eq, Structural)]
pub enum OwnerNext {
    Ask(OwnerSearch),
    Report,
    Nothing,
}

/// The order of the search: RPM, dpkg, pacman, APK, OPKG, XBPS, Eopkg,
/// Portage, Slackware, npm, Homebrew, AppImage, and last a standalone file.
pub open spec fn owner_search_order() -> Seq<OwnerSearch> {
    seq![
        OwnerSearch::Rpm,
        OwnerSearch::Dpkg,
        OwnerSearch::Pacman,
        OwnerSearch::Apk,
        OwnerSearch::Opkg,
        OwnerSearch::Xbps,
        OwnerSearch::Eopkg,
        OwnerSearch::Portage,
        OwnerSearch::Slackware,
        OwnerSearch::Npm,
        OwnerSearch::Homebrew,
        OwnerSearch::AppImage,
        OwnerSearch::Standalone,
    ]
}

/// The place asked after `s`, none after the last.
pub open spec fn next_owner_search(s: OwnerSearch) -> Option<OwnerSearch> {
    match s {
        OwnerSearch::Rpm => Some(OwnerSearch::Dpkg),
        OwnerSearch::Dpkg => Some(OwnerSearch::Pacman),
        OwnerSearch::Pacman => Some(OwnerSearch::Apk),
        OwnerSearch::Apk => Some(OwnerSearch::Opkg),
        OwnerSearch::Opkg => Some(OwnerSearch::Xbps),
        OwnerSearch::Xbps => Some(OwnerSearch::Eopkg),
        OwnerSearch::Eopkg => Some(OwnerSearch::Portage),
        OwnerSearch::Portage => Some(OwnerSearch::Slackware),
        OwnerSearch::Slackware => Some(OwnerSearch::Npm),
        OwnerSearch::Npm => Some(OwnerSearch::Homebrew),
        OwnerSearch::Homebrew => Some(OwnerSearch::AppImage),
        OwnerSearch::AppImage => Some(OwnerSearch::Standalone),
        OwnerSearch::Standalone => None,
    }
}

/// One step of the search: the first owner found is reported; a command
/// of the rpm-ostree base image ends the search without a result; else the
/// next place is asked, and after the last the search ends without one.
pub open spec fn owner_step_spec(s: OwnerSearch, answer: OwnerAnswer) -> OwnerNext {
    match answer {
        OwnerAnswer::Owned => OwnerNext::Report,
        OwnerAnswer::BaseImage => OwnerNext::Nothing,
        OwnerAnswer::NotOwned => match next_owner_search(s) {
            Some(n) => OwnerNext::Ask(n),
            None => OwnerNext::Nothing,
        },
    }
}

/// Where the search starts.
pub fn owner_search_start() -> (r: OwnerSearch)
    ensures
        r == owner_search_order()[0],
{
    OwnerSearch::Rpm
}

/// One step of the owner search.
pub fn owner_step(s: OwnerSearch, answer: OwnerAnswer) -> (r: OwnerNext)
    ensures
        r == owner_step_spec(s, answer),
{
    match answer {
        OwnerAnswer::Owned => OwnerNext::Report,
        OwnerAnswer::BaseImage => OwnerNext::Nothing,
        OwnerAnswer::NotOwned => match s {
            OwnerSearch::Rpm => OwnerNext::Ask(OwnerSearch::Dpkg),
            OwnerSearch::Dpkg => OwnerNext::Ask(OwnerSearch::Pacman),
            OwnerSearch::Pacman => OwnerNext::Ask(OwnerSearch::Apk),
            OwnerSearch::Apk => OwnerNext::Ask(OwnerSearch::Opkg),
            OwnerSearch::Opkg => OwnerNext::Ask(OwnerSearch::Xbps),
            OwnerSearch::Xbps => OwnerNext::Ask(OwnerSearch::Eopkg),
            OwnerSearch::Eopkg => OwnerNext::Ask(OwnerSearch::Portage),
            OwnerSearch::Portage => OwnerNext::Ask(OwnerSearch::Slackware),
            OwnerSearch::Slackware => OwnerNext::Ask(OwnerSearch::Npm),
            OwnerSearch::Npm => OwnerNext::Ask(OwnerSearch::Homebrew),
            OwnerSearch::Homebrew => OwnerNext::Ask(OwnerSearch::AppImage),
            OwnerSearch::AppImage => OwnerNext::Ask(OwnerSearch::Standalone),
            OwnerSearch::Standalone => OwnerNext::Nothing,
        },
    }
}

/// The places that find no owner are asked one after another in the order
/// of `owner_search_order`, every place once, each only after all before
/// it have answered that they do not own the command; the first owner
/// found ends the search.
pub proof fn owner_search_follows_its_order(i: int, answer: OwnerAnswer)
    requires
        0 <= i < owner_search_order().len(),
    ensures
        answer == OwnerAnswer::NotOwned && i + 1 < owner_search_order().len() ==> owner_step_spec(
            owner_search_order()[i],
            answer,
        ) == OwnerNext::Ask(owner_search_order()[i + 1]),
        answer == OwnerAnswer::NotOwned && i + 1 == owner_search_order().len() ==> owner_step_spec(
            owner_search_order()[i],
            answer,
        ) == OwnerNext::Nothing,
        answer == OwnerAnswer::Owned ==> owner_step_spec(owner_search_order()[i], answer)
            == OwnerNext::Report,
        answer == OwnerAnswer::BaseImage ==> owner_step_spec(owner_search_order()[i], answer)
            == OwnerNext::Nothing,
{
}

} // verus!
