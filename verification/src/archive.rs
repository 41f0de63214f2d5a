//! Local package archives: which kind a file name is, what its metadata
//! names, and the installed package that the archive stands for.
use crate::discovery::{split_xbps, xbps_split_spec};
use crate::lines::{
    ascii_lower_chars, ascii_lower_seq, lines_of, lines_spec, split_chars, split_on, words_of,
    words_spec,
};
use crate::model::{texts, Match, Role};
use crate::owner::{field_or_empty, rsplit_dash, stem_of, tab_fields};
use crate::provenance::{field_value, opt_texts_of, parse_key_records, key_records_spec, record_view};
use crate::text::{
    after_last_index, chars_eq, chars_of, contains_chars, contains_seq, copy_chars,
    ends_with_chars, owned, push_char, push_str, rfind_after, slice_chars, starts_with_chars,
    str_eq, string_of, trim_chars, trim_spec,
};
use crate::util::{deep, file_name, file_name_spec};
use vstd::prelude::*;

verus! {

// ---------------------------------------------------------------------------
// Kinds of archive
// ---------------------------------------------------------------------------

#[derive(Clone, Copy, Debug, PartialEq, Eq, Structural)]
pub enum ArchiveKind {
    Rpm,
    Deb,
    Pacman,
    Apk,
    Opkg,
    Xbps,
    Slackware,
    Eopkg,
    FlatpakBundle,
    FlatpakRef,
}

pub open spec fn ends(s: Seq<char>, suffix: Seq<char>) -> bool {
    suffix.is_suffix_of(s)
}

pub open spec fn when(c: bool, k: ArchiveKind) -> Seq<ArchiveKind> {
    if c {
        seq![k]
    } else {
        Seq::empty()
    }
}

/// The kinds of archive a file name may be, in the order they are tried;
/// the name is compared in ASCII lowercase.
pub open spec fn archive_kinds_spec(name: Seq<char>) -> Seq<ArchiveKind> {
    let n = ascii_lower_seq(name);
    when(ends(n, ".rpm"@), ArchiveKind::Rpm) + when(ends(n, ".deb"@), ArchiveKind::Deb) + when(
        contains_seq(n, ".pkg.tar."@),
        ArchiveKind::Pacman,
    ) + when(ends(n, ".apk"@), ArchiveKind::Apk) + when(
        ends(n, ".ipk"@) || ends(n, ".opk"@),
        ArchiveKind::Opkg,
    ) + when(ends(n, ".xbps"@), ArchiveKind::Xbps) + when(
        ends(n, ".txz"@) || ends(n, ".tgz"@),
        ArchiveKind::Slackware,
    ) + when(ends(n, ".eopkg"@), ArchiveKind::Eopkg) + if ends(n, ".flatpakref"@) {
        seq![ArchiveKind::FlatpakRef]
    } else {
        when(ends(n, ".flatpak"@), ArchiveKind::FlatpakBundle)
    }
}

fn ends_exec(n: &Vec<char>, suffix: &str) -> (r: bool)
    ensures
        r == ends(n@, suffix@),
{
    ends_with_chars(n, &chars_of(suffix))
}

fn push_when(v: &mut Vec<ArchiveKind>, c: bool, k: ArchiveKind)
    ensures
        final(v)@ == old(v)@ + when(c, k),
{
    if c {
        v.push(k);
        assert(final(v)@ =~= old(v)@ + seq![k]);
    } else {
        assert(old(v)@ + when(c, k) =~= old(v)@);
    }
}

/// The kinds of archive that a file name may be.
pub fn archive_kinds(name: &str) -> (r: Vec<ArchiveKind>)
    ensures
        r@ == archive_kinds_spec(name@),
{
    let n = ascii_lower_chars(&chars_of(name));
    let mut v: Vec<ArchiveKind> = Vec::new();
    push_when(&mut v, ends_exec(&n, ".rpm"), ArchiveKind::Rpm);
    push_when(&mut v, ends_exec(&n, ".deb"), ArchiveKind::Deb);
    push_when(&mut v, contains_chars(&n, &chars_of(".pkg.tar.")), ArchiveKind::Pacman);
    push_when(&mut v, ends_exec(&n, ".apk"), ArchiveKind::Apk);
    push_when(&mut v, ends_exec(&n, ".ipk") || ends_exec(&n, ".opk"), ArchiveKind::Opkg);
    push_when(&mut v, ends_exec(&n, ".xbps"), ArchiveKind::Xbps);
    push_when(&mut v, ends_exec(&n, ".txz") || ends_exec(&n, ".tgz"), ArchiveKind::Slackware);
    push_when(&mut v, ends_exec(&n, ".eopkg"), ArchiveKind::Eopkg);
    if ends_exec(&n, ".flatpakref") {
        v.push(ArchiveKind::FlatpakRef);
    } else {
        push_when(&mut v, ends_exec(&n, ".flatpak"), ArchiveKind::FlatpakBundle);
    }
    v
}

/// Whether a query names a package archive.
pub fn names_archive(query: &str) -> (r: bool)
    ensures
        r == (archive_kinds_spec(query@).len() > 0),
{
    archive_kinds(query).len() > 0
}

// ---------------------------------------------------------------------------
// The installed package behind an archive
// ---------------------------------------------------------------------------

/// A result for the installed package that a local archive stands for.
pub open spec fn archive_item(
    m: Match,
    backend: Seq<char>,
    id: Seq<char>,
    name: Seq<char>,
    version: Seq<char>,
    architecture: Seq<char>,
    source: Seq<char>,
    evidence: Seq<char>,
) -> bool {
    &&& m.backend@ == backend
    &&& m.id@ == id
    &&& m.name@ == name
    &&& m.version@ == version
    &&& m.architecture@ == architecture
    &&& opt_texts_of(m.source_path) == Some(source)
    &&& m.evidence@ == evidence
    &&& m.scope@ == "system"@
    &&& m.role == Role::Unknown
    &&& m.command_path is None
    &&& m.installed_size_bytes is None
    &&& m.reason@ == Seq::<char>::empty()
    &&& m.profile@ == Seq::<char>::empty()
    &&& m.installation@ == Seq::<char>::empty()
    &&& m.origin@ == Seq::<char>::empty()
    &&& m.summary@ == Seq::<char>::empty()
}

fn archive_match(
    backend: &str,
    id: &[char],
    name: &[char],
    version: &[char],
    architecture: &[char],
    source: &str,
    evidence: &str,
    detail: &[char],
) -> (r: Match)
    ensures
        archive_item(r, backend@, id@, name@, version@, architecture@, source@, evidence@ + detail@),
{
    let i = string_of(id);
    let n = string_of(name);
    let mut m = Match::new(backend, i.as_str(), n.as_str());
    m.version = string_of(version);
    m.architecture = string_of(architecture);
    m.source_path = Some(owned(source));
    let mut e = owned(evidence);
    let d = string_of(detail);
    push_str(&mut e, d.as_str());
    m.evidence = e;
    m
}

/// The first line of a text, or nothing.
pub open spec fn first_line(text: Seq<char>) -> Seq<char> {
    if lines_spec(text).len() > 0 {
        lines_spec(text)[0]
    } else {
        Seq::empty()
    }
}

fn first_line_of(text: &str) -> (r: Vec<char>)
    ensures
        r@ == first_line(text@),
{
    let lines = lines_of(&chars_of(text));
    if lines.len() > 0 {
        assert(deep(lines@)[0] == lines@[0]@);
        copy_chars(&lines[0])
    } else {
        Vec::new()
    }
}

/// `name.arch` from the three fields of `rpm -qp`.
pub open spec fn rpm_archive_id_spec(metadata: Seq<char>) -> Option<Seq<char>> {
    let f = tab_fields(metadata);
    if f.len() == 3 {
        Some(f[0] + seq!['.'] + f[2])
    } else {
        None
    }
}

fn join3(a: &[char], sep: char, b: &[char]) -> (r: Vec<char>)
    ensures
        r@ == a@ + seq![sep] + b@,
{
    let mut out = copy_chars(a);
    out.push(sep);
    let mut k: usize = 0;
    let ghost start = out@;
    while k < b.len()
        invariant
            k <= b@.len(),
            out@ == start + b@.take(k as int),
        decreases b@.len() - k,
    {
        out.push(b[k]);
        assert(b@.take(k + 1) =~= b@.take(k as int).push(b@[k as int]));
        k = k + 1;
    }
    assert(b@.take(b@.len() as int) =~= b@);
    assert(out@ =~= a@ + seq![sep] + b@);
    out
}

fn fields_of(text: &str) -> (r: Vec<Vec<char>>)
    ensures
        deep(r@) == tab_fields(text@),
{
    split_chars(&trim_chars(&chars_of(text)), '\t')
}

/// The package id that a local RPM archive names.
pub fn rpm_archive_id(metadata: &str) -> (r: Option<String>)
    ensures
        opt_texts_of(r) == rpm_archive_id_spec(metadata@),
{
    let f = fields_of(metadata);
    if f.len() != 3 {
        return None;
    }
    assert(deep(f@)[0] == f@[0]@ && deep(f@)[2] == f@[2]@);
    Some(string_of(&join3(&f[0], '.', &f[2])))
}

/// The installed package behind a local RPM archive: `metadata` is what
/// `rpm -qp` printed of the archive, `installed` what `rpm -q` printed of
/// its id, `backend` the RPM manager in use.
pub fn rpm_archive(metadata: &str, installed: &str, backend: &str, source: &str) -> (r: Option<Match>)
    ensures
        r is Some <==> rpm_archive_id_spec(metadata@) is Some && trim_spec(installed@).len() > 0,
        r matches Some(m) ==> {
            let f = tab_fields(metadata@);
            archive_item(
                m,
                backend@,
                f[0] + seq!['.'] + f[2],
                f[0],
                first_line(installed@),
                f[2],
                source@,
                "local RPM archive version "@ + f[1],
            )
        },
{
    let f = fields_of(metadata);
    if f.len() != 3 {
        return None;
    }
    assert(deep(f@)[0] == f@[0]@ && deep(f@)[1] == f@[1]@ && deep(f@)[2] == f@[2]@);
    if trim_chars(&chars_of(installed)).len() == 0 {
        return None;
    }
    let id = join3(&f[0], '.', &f[2]);
    let version = first_line_of(installed);
    Some(archive_match(backend, &id, &f[0], &version, &f[2], source, "local RPM archive version ", &f[1]))
}

/// The package id that a local DEB archive names: the package, qualified
/// by its architecture unless that is `all`.
pub open spec fn deb_archive_id_spec(metadata: Seq<char>) -> Option<Seq<char>> {
    let f = lines_spec(metadata);
    if f.len() >= 3 {
        Some(
            if f[2] == "all"@ {
                f[0]
            } else {
                f[0] + seq![':'] + f[2]
            },
        )
    } else {
        None
    }
}

pub fn deb_archive_id(metadata: &str) -> (r: Option<String>)
    ensures
        opt_texts_of(r) == deb_archive_id_spec(metadata@),
{
    let f = lines_of(&chars_of(metadata));
    if f.len() < 3 {
        return None;
    }
    assert(deep(f@)[0] == f@[0]@ && deep(f@)[2] == f@[2]@);
    if str_eq(string_of(&f[2]).as_str(), "all") {
        Some(string_of(&f[0]))
    } else {
        Some(string_of(&join3(&f[0], ':', &f[2])))
    }
}

/// The installed package behind a local DEB archive: `metadata` is the
/// package, version and architecture lines that `dpkg-deb -f` printed,
/// `installed` the version that `dpkg-query` printed.
pub fn deb_archive(metadata: &str, installed: &str, source: &str) -> (r: Option<Match>)
    ensures
        r is Some <==> deb_archive_id_spec(metadata@) is Some && trim_spec(installed@).len() > 0,
        r matches Some(m) ==> {
            let f = lines_spec(metadata@);
            archive_item(
                m,
                "APT"@,
                deb_archive_id_spec(metadata@).unwrap(),
                f[0],
                trim_spec(installed@),
                f[2],
                source@,
                "local DEB archive version "@ + f[1],
            )
        },
{
    let id = match deb_archive_id(metadata) {
        Some(id) => id,
        None => return None,
    };
    let f = lines_of(&chars_of(metadata));
    assert(deep(f@)[0] == f@[0]@ && deep(f@)[1] == f@[1]@ && deep(f@)[2] == f@[2]@);
    let version = trim_chars(&chars_of(installed));
    if version.len() == 0 {
        return None;
    }
    Some(
        archive_match(
            "APT",
            &chars_of(id.as_str()),
            &f[0],
            &version,
            &f[2],
            source,
            "local DEB archive version ",
            &f[1],
        ),
    )
}

/// The package name that `pacman -Qp` printed for an archive.
pub open spec fn pacman_archive_name_spec(archive: Seq<char>) -> Option<Seq<char>> {
    let w = words_spec(archive);
    if w.len() >= 2 {
        Some(w[0])
    } else {
        None
    }
}

pub fn pacman_archive_name(archive: &str) -> (r: Option<String>)
    ensures
        opt_texts_of(r) == pacman_archive_name_spec(archive@),
{
    let w = words_of(&chars_of(archive));
    if w.len() >= 2 {
        assert(deep(w@)[0] == w@[0]@);
        Some(string_of(&w[0]))
    } else {
        None
    }
}

/// The installed package behind a local Arch package archive: `archive`
/// is what `pacman -Qp` printed, `installed` what `pacman -Q` printed of
/// the package.
pub fn pacman_archive(archive: &str, installed: &str, source: &str) -> (r: Option<Match>)
    ensures
        r is Some <==> ({
            let a = words_spec(archive@);
            let i = words_spec(installed@);
            a.len() >= 2 && i.len() >= 2 && i[0] == a[0]
        }),
        r matches Some(m) ==> {
            let a = words_spec(archive@);
            let i = words_spec(installed@);
            archive_item(
                m,
                "Pacman"@,
                a[0],
                a[0],
                i[1],
                Seq::empty(),
                source@,
                "local Arch package archive version "@ + a[1],
            )
        },
{
    let a = words_of(&chars_of(archive));
    let i = words_of(&chars_of(installed));
    if a.len() < 2 || i.len() < 2 {
        return None;
    }
    assert(deep(a@)[0] == a@[0]@ && deep(a@)[1] == a@[1]@);
    assert(deep(i@)[0] == i@[0]@ && deep(i@)[1] == i@[1]@);
    if !chars_eq(&i[0], &a[0]) {
        return None;
    }
    let empty: Vec<char> = Vec::new();
    Some(
        archive_match(
            "Pacman",
            &a[0],
            &a[0],
            &i[1],
            &empty,
            source,
            "local Arch package archive version ",
            &a[1],
        ),
    )
}

// ---------------------------------------------------------------------------
// Archives whose package is looked up in an inventory
// ---------------------------------------------------------------------------

/// An installed package as an inventory lists it: name and version.
pub open spec fn inventory_view(v: Seq<(String, String)>) -> Seq<(Seq<char>, Seq<char>)> {
    v.map_values(|p: (String, String)| (p.0@, p.1@))
}

/// The version of the first inventory entry with the name.
pub open spec fn inventory_version(inv: Seq<(Seq<char>, Seq<char>)>, name: Seq<char>) -> Option<Seq<char>>
    decreases inv.len(),
{
    if inv.len() == 0 {
        None
    } else if inv[0].0 == name {
        Some(inv[0].1)
    } else {
        inventory_version(inv.drop_first(), name)
    }
}

fn inventory_lookup(inventory: &Vec<(String, String)>, name: &[char]) -> (r: Option<Vec<char>>)
    ensures
        match r {
            Some(v) => inventory_version(inventory_view(inventory@), name@) == Some(v@),
            None => inventory_version(inventory_view(inventory@), name@) is None,
        },
{
    let ghost iv = inventory_view(inventory@);
    let mut i: usize = 0;
    assert(iv.skip(0) =~= iv);
    while i < inventory.len()
        invariant
            i <= inventory@.len(),
            iv == inventory_view(inventory@),
            inventory_version(iv, name@) == inventory_version(iv.skip(i as int), name@),
        decreases inventory@.len() - i,
    {
        assert(iv.skip(i as int)[0] == (inventory@[i as int].0@, inventory@[i as int].1@));
        let candidate = chars_of(inventory[i].0.as_str());
        if chars_eq(&candidate, name) {
            return Some(chars_of(inventory[i].1.as_str()));
        }
        assert(iv.skip(i as int).drop_first() =~= iv.skip(i + 1));
        i = i + 1;
    }
    None
}

/// A `key = value` line of an APK `.PKGINFO`.
pub open spec fn pkginfo_line(line: Seq<char>, key: Seq<char>) -> Option<Seq<char>> {
    let sep = " = "@;
    if exists|at: int| crate::text::occurs_at(line, sep, at) {
        let at = choose|at: int|
            crate::text::occurs_at(line, sep, at) && forall|k: int|
                0 <= k < at ==> !#[trigger] crate::text::occurs_at(line, sep, k);
        if line.take(at) == key {
            Some(line.skip(at + 3))
        } else {
            None
        }
    } else {
        None
    }
}

/// The value of a `.PKGINFO` key: its last assignment.
pub open spec fn pkginfo_scan(lines: Seq<Seq<char>>, key: Seq<char>) -> Option<Seq<char>>
    decreases lines.len(),
{
    if lines.len() == 0 {
        None
    } else {
        match pkginfo_line(lines.last(), key) {
            Some(v) => Some(v),
            None => pkginfo_scan(lines.drop_last(), key),
        }
    }
}

pub open spec fn pkginfo_value(text: Seq<char>, key: Seq<char>) -> Option<Seq<char>> {
    pkginfo_scan(lines_spec(text), key)
}

fn pkginfo_line_exec(line: &Vec<char>, key: &Vec<char>) -> (r: Option<Vec<char>>)
    ensures
        match r {
            Some(v) => pkginfo_line(line@, key@) == Some(v@),
            None => pkginfo_line(line@, key@) is None,
        },
{
    proof {
        reveal_strlit(" = ");
    }
    let ghost sep = " = "@;
    let n = line.len();
    if n < 3 {
        assert forall|at: int| !crate::text::occurs_at(line@, sep, at) by {}
        return None;
    }
    let mut at: usize = 0;
    while at <= n - 3
        invariant
            n == line@.len(),
            n >= 3,
            sep == seq![' ', '=', ' '],
            sep == " = "@,
            at <= n - 2,
            forall|k: int| 0 <= k < at ==> !#[trigger] crate::text::occurs_at(line@, sep, k),
        decreases n - at,
    {
        if line[at] == ' ' && line[at + 1] == '=' && line[at + 2] == ' ' {
            assert(line@.subrange(at as int, at + 3) =~= sep);
            assert(crate::text::occurs_at(line@, sep, at as int));
            let ghost c = choose|x: int|
                crate::text::occurs_at(line@, sep, x) && forall|k: int|
                    0 <= k < x ==> !#[trigger] crate::text::occurs_at(line@, sep, k);
            assert(c == at as int) by {
                if c < at {
                } else if c > at {
                }
            }
            let head = slice_chars(line, 0, at);
            assert(head@ =~= line@.take(at as int));
            if chars_eq(&head, key) {
                let tail = slice_chars(line, at + 3, n);
                assert(tail@ =~= line@.skip(at + 3));
                return Some(tail);
            }
            return None;
        }
        assert(!crate::text::occurs_at(line@, sep, at as int)) by {
            if crate::text::occurs_at(line@, sep, at as int) {
                assert(line@.subrange(at as int, at + 3)[0] == line@[at as int]);
                assert(line@.subrange(at as int, at + 3)[1] == line@[at + 1]);
                assert(line@.subrange(at as int, at + 3)[2] == line@[at + 2]);
            }
        }
        at = at + 1;
    }
    assert forall|k: int| !crate::text::occurs_at(line@, sep, k) by {
        if 0 <= k < at {
        }
    }
    None
}

fn pkginfo_get(text: &str, key: &str) -> (r: Option<Vec<char>>)
    ensures
        match r {
            Some(v) => pkginfo_value(text@, key@) == Some(v@),
            None => pkginfo_value(text@, key@) is None,
        },
{
    let lines = lines_of(&chars_of(text));
    let k = chars_of(key);
    let ghost ls = lines_spec(text@);
    let mut i: usize = lines.len();
    assert(ls.take(i as int) =~= ls);
    while i > 0
        invariant
            i <= lines@.len(),
            deep(lines@) == ls,
            ls == lines_spec(text@),
            k@ == key@,
            pkginfo_scan(ls, key@) == pkginfo_scan(ls.take(i as int), key@),
        decreases i,
    {
        assert(ls.take(i as int).last() == lines@[i - 1]@);
        assert(ls.take(i as int).drop_last() =~= ls.take(i - 1));
        match pkginfo_line_exec(&lines[i - 1], &k) {
            Some(v) => {
                return Some(v);
            },
            None => {},
        }
        i = i - 1;
    }
    None
}

/// The installed package behind a local APK archive: `pkginfo` is its
/// `.PKGINFO`, `inventory` the installed packages and their versions.
pub fn apk_archive(pkginfo: &str, inventory: &Vec<(String, String)>, source: &str) -> (r: Option<Match>)
    ensures
        r is Some <==> match pkginfo_value(pkginfo@, "pkgname"@) {
            Some(n) => inventory_version(inventory_view(inventory@), n) is Some,
            None => false,
        },
        r matches Some(m) ==> {
            let n = pkginfo_value(pkginfo@, "pkgname"@).unwrap();
            archive_item(
                m,
                "APK"@,
                n,
                n,
                inventory_version(inventory_view(inventory@), n).unwrap(),
                match pkginfo_value(pkginfo@, "arch"@) {
                    Some(a) => a,
                    None => Seq::empty(),
                },
                source@,
                "local APK archive version "@ + match pkginfo_value(pkginfo@, "pkgver"@) {
                    Some(v) => v,
                    None => "unknown"@,
                },
            )
        },
{
    let name = match pkginfo_get(pkginfo, "pkgname") {
        Some(n) => n,
        None => return None,
    };
    let version = match inventory_lookup(inventory, &name) {
        Some(v) => v,
        None => return None,
    };
    let arch = match pkginfo_get(pkginfo, "arch") {
        Some(a) => a,
        None => Vec::new(),
    };
    let detail = match pkginfo_get(pkginfo, "pkgver") {
        Some(v) => v,
        None => chars_of("unknown"),
    };
    Some(archive_match("APK", &name, &name, &version, &arch, source, "local APK archive version ", &detail))
}

/// The installed package behind a local OPKG archive: `control` is the
/// archive's `control` file.
pub fn opkg_archive(control: &str, inventory: &Vec<(String, String)>, source: &str) -> (r: Option<Match>)
    ensures
        r is Some <==> key_records_spec(control@).len() > 0 && match field_value(
            key_records_spec(control@)[0],
            "Package"@,
        ) {
            Some(n) => inventory_version(inventory_view(inventory@), n) is Some,
            None => false,
        },
        r matches Some(m) ==> {
            let fields = key_records_spec(control@)[0];
            let n = field_value(fields, "Package"@).unwrap();
            archive_item(
                m,
                "OPKG"@,
                n,
                n,
                inventory_version(inventory_view(inventory@), n).unwrap(),
                match field_value(fields, "Architecture"@) {
                    Some(a) => a,
                    None => Seq::empty(),
                },
                source@,
                "local OPKG archive version "@ + match field_value(fields, "Version"@) {
                    Some(v) => v,
                    None => "unknown"@,
                },
            )
        },
{
    let records = parse_key_records(control);
    if records.len() == 0 {
        return None;
    }
    let record = &records[0];
    assert(crate::provenance::records_view(records@)[0] == record_view(*record));
    let name = match record.get("Package") {
        Some(n) => chars_of(n.as_str()),
        None => return None,
    };
    let version = match inventory_lookup(inventory, &name) {
        Some(v) => v,
        None => return None,
    };
    let arch = match record.get("Architecture") {
        Some(a) => chars_of(a.as_str()),
        None => Vec::new(),
    };
    let detail = match record.get("Version") {
        Some(v) => chars_of(v.as_str()),
        None => chars_of("unknown"),
    };
    Some(archive_match("OPKG", &name, &name, &version, &arch, source, "local OPKG archive version ", &detail))
}

/// A text without all the copies of a suffix at its end.
pub open spec fn strip_suffixes(s: Seq<char>, suffix: Seq<char>) -> Seq<char>
    decreases s.len(),
{
    if suffix.len() > 0 && suffix.is_suffix_of(s) {
        strip_suffixes(s.take(s.len() - suffix.len()), suffix)
    } else {
        s
    }
}

/// The `name-version_revision` of an XBPS archive file name: without the
/// `.xbps` endings and the architecture after the last dot.
pub open spec fn xbps_archive_split(file: Seq<char>) -> (Seq<char>, Seq<char>) {
    let stem = strip_suffixes(file, ".xbps"@);
    let k = after_last_index(stem, '.');
    let package = if k == 0 {
        stem
    } else {
        stem.take(k - 1)
    };
    xbps_split_spec(package)
}

fn strip_suffixes_exec(s: &Vec<char>, suffix: &Vec<char>) -> (r: Vec<char>)
    ensures
        r@ == strip_suffixes(s@, suffix@),
{
    let mut cur = copy_chars(s);
    assert(strip_suffixes(s@, suffix@) == strip_suffixes(cur@, suffix@));
    while suffix.len() > 0 && ends_with_chars(&cur, suffix)
        invariant
            strip_suffixes(s@, suffix@) == strip_suffixes(cur@, suffix@),
        decreases cur@.len(),
    {
        let keep = cur.len() - suffix.len();
        let next = slice_chars(&cur, 0, keep);
        assert(next@ =~= cur@.take(cur@.len() - suffix@.len()));
        cur = next;
    }
    cur
}

/// The name and version that an XBPS archive's file name gives.
pub fn xbps_archive_name(file: &str) -> (r: (String, String))
    ensures
        (r.0@, r.1@) == xbps_archive_split(file@),
{
    let stem = strip_suffixes_exec(&chars_of(file), &chars_of(".xbps"));
    let k = rfind_after(&stem, '.');
    let package = if k == 0 {
        stem
    } else {
        let p = slice_chars(&stem, 0, k - 1);
        assert(p@ =~= stem@.take(k - 1));
        p
    };
    split_xbps(string_of(&package).as_str())
}

/// The installed package behind a local XBPS archive.
pub fn xbps_archive(file: &str, inventory: &Vec<(String, String)>, source: &str) -> (r: Option<Match>)
    ensures
        r is Some <==> inventory_version(inventory_view(inventory@), xbps_archive_split(file@).0) is Some,
        r matches Some(m) ==> {
            let (n, v) = xbps_archive_split(file@);
            archive_item(
                m,
                "XBPS"@,
                n,
                n,
                inventory_version(inventory_view(inventory@), n).unwrap(),
                Seq::empty(),
                source@,
                "local XBPS archive version "@ + v,
            )
        },
{
    let (name, version) = xbps_archive_name(file);
    let n = chars_of(name.as_str());
    let installed = match inventory_lookup(inventory, &n) {
        Some(v) => v,
        None => return None,
    };
    let empty: Vec<char> = Vec::new();
    Some(
        archive_match(
            "XBPS",
            &n,
            &n,
            &installed,
            &empty,
            source,
            "local XBPS archive version ",
            &chars_of(version.as_str()),
        ),
    )
}

/// The `name-version-arch-build` pieces of a Slackware archive's file
/// stem, when it has all four.
pub open spec fn slackware_archive_fields(file: Seq<char>) -> Option<Seq<Seq<char>>> {
    let f = rsplit_dash(stem_of(file), 4);
    if f.len() == 4 {
        Some(f)
    } else {
        None
    }
}

/// The package name of a Slackware archive.
pub fn slackware_archive_name(file: &str) -> (r: Option<String>)
    ensures
        opt_texts_of(r) == match slackware_archive_fields(file@) {
            Some(f) => Some(f[3]),
            None => None,
        },
{
    let stem = stem_exec(file);
    let f = crate::owner::rsplit_dash_pieces(&stem, 4);
    if f.len() == 4 {
        assert(deep(f@)[3] == f@[3]@);
        Some(string_of(&f[3]))
    } else {
        None
    }
}

fn stem_exec(file: &str) -> (r: Vec<char>)
    ensures
        r@ == stem_of(file@),
{
    let n = chars_of(file);
    let k = rfind_after(&n, '.');
    if k <= 1 {
        n
    } else {
        let head = slice_chars(&n, 0, k - 1);
        assert(head@ =~= n@.take(k - 1));
        head
    }
}

/// The installed package behind a local Slackware archive; `installed` is
/// the version of the installed package with the archive's name.
pub fn slackware_archive(file: &str, installed: &str, source: &str) -> (r: Option<Match>)
    ensures
        r is Some <==> slackware_archive_fields(file@) is Some,
        r matches Some(m) ==> {
            let f = slackware_archive_fields(file@).unwrap();
            archive_item(
                m,
                "Slackware"@,
                f[3],
                f[3],
                installed@,
                f[1],
                source@,
                "local Slackware archive version "@ + f[2],
            )
        },
{
    let stem = stem_exec(file);
    let f = crate::owner::rsplit_dash_pieces(&stem, 4);
    if f.len() != 4 {
        return None;
    }
    assert(deep(f@)[1] == f@[1]@ && deep(f@)[2] == f@[2]@ && deep(f@)[3] == f@[3]@);
    Some(
        archive_match(
            "Slackware",
            &f[3],
            &f[3],
            &chars_of(installed),
            &f[1],
            source,
            "local Slackware archive version ",
            &f[2],
        ),
    )
}

/// The installed package behind a local Eopkg archive: `info` is what
/// `eopkg info` printed of the archive, `installed` the version of the
/// installed package with its name.
pub fn eopkg_archive(info: &str, installed: &str, source: &str) -> (r: Option<Match>)
    ensures
        r is Some <==> key_records_spec(info@).len() > 0 && field_value(
            key_records_spec(info@)[0],
            "Name"@,
        ) is Some,
        r matches Some(m) ==> {
            let fields = key_records_spec(info@)[0];
            let n = field_value(fields, "Name"@).unwrap();
            archive_item(
                m,
                "Eopkg"@,
                n,
                n,
                installed@,
                Seq::empty(),
                source@,
                "local Eopkg archive version "@ + match field_value(fields, "Version"@) {
                    Some(v) => v,
                    None => "unknown"@,
                },
            )
        },
{
    let records = parse_key_records(info);
    if records.len() == 0 {
        return None;
    }
    let record = &records[0];
    assert(crate::provenance::records_view(records@)[0] == record_view(*record));
    let name = match record.get("Name") {
        Some(n) => chars_of(n.as_str()),
        None => return None,
    };
    let detail = match record.get("Version") {
        Some(v) => chars_of(v.as_str()),
        None => chars_of("unknown"),
    };
    let empty: Vec<char> = Vec::new();
    Some(
        archive_match(
            "Eopkg",
            &name,
            &name,
            &chars_of(installed),
            &empty,
            source,
            "local Eopkg archive version ",
            &detail,
        ),
    )
}

/// The application that a `.flatpakref` names: the first `Name=` line.
pub open spec fn flatpakref_scan(lines: Seq<Seq<char>>) -> Seq<char>
    decreases lines.len(),
{
    if lines.len() == 0 {
        Seq::empty()
    } else if "Name="@.is_prefix_of(lines[0]) {
        trim_spec(lines[0].skip(5))
    } else {
        flatpakref_scan(lines.drop_first())
    }
}

pub fn flatpakref_id(text: &str) -> (r: String)
    ensures
        r@ == flatpakref_scan(lines_spec(text@)),
{
    proof {
        reveal_strlit("Name=");
    }
    let lines = lines_of(&chars_of(text));
    let prefix = chars_of("Name=");
    let ghost ls = lines_spec(text@);
    let mut i: usize = 0;
    assert(ls.skip(0) =~= ls);
    while i < lines.len()
        invariant
            i <= lines@.len(),
            deep(lines@) == ls,
            ls == lines_spec(text@),
            prefix@ == "Name="@,
            "Name="@.len() == 5,
            flatpakref_scan(ls) == flatpakref_scan(ls.skip(i as int)),
        decreases lines@.len() - i,
    {
        assert(ls.skip(i as int)[0] == lines@[i as int]@);
        if starts_with_chars(&lines[i], &prefix) {
            let rest = slice_chars(&lines[i], 5, lines[i].len());
            assert(rest@ =~= lines@[i as int]@.skip(5));
            return string_of(&trim_chars(&rest));
        }
        assert(ls.skip(i as int).drop_first() =~= ls.skip(i + 1));
        i = i + 1;
    }
    String::new()
}

/// The application that a Flatpak bundle holds: `app/ID/arch/branch` as
/// `flatpak info --show-ref` printed it.
pub open spec fn flatpak_bundle_spec(reference: Seq<char>) -> Seq<char> {
    let parts = split_on(trim_spec(reference), '/');
    if parts[0] == "app"@ && parts.len() >= 4 {
        parts[1]
    } else {
        Seq::empty()
    }
}

pub fn flatpak_bundle_id(reference: &str) -> (r: String)
    ensures
        r@ == flatpak_bundle_spec(reference@),
{
    let parts = split_chars(&trim_chars(&chars_of(reference)), '/');
    proof {
        crate::lines::lemma_split_on_len(trim_spec(reference@), '/');
    }
    assert(deep(parts@)[0] == parts@[0]@);
    if str_eq(string_of(&parts[0]).as_str(), "app") && parts.len() >= 4 {
        assert(deep(parts@)[1] == parts@[1]@);
        string_of(&parts[1])
    } else {
        String::new()
    }
}


// ---------------------------------------------------------------------------
// The control file of an `ar` package (OPKG)
// ---------------------------------------------------------------------------

/// The text that `String::from_utf8_lossy` makes of some bytes.
pub uninterp spec fn utf8_lossy(bytes: Seq<u8>) -> Seq<char>;

/// What a gzip stream decodes to with the `flate2` crate, as far as it
/// decodes.
pub uninterp spec fn gzip_decoded(data: Seq<u8>) -> Seq<u8>;

/// The entries of a tar archive as the `tar` crate reads them: each
/// entry's path (when it has a readable one) and its contents as text.
pub uninterp spec fn tar_entries_of(data: Seq<u8>) -> Seq<(Option<Seq<char>>, Seq<char>)>;

/// Calls `String::from_utf8_lossy`; its result is named by `utf8_lossy`.
#[verifier::external_body]
fn lossy_text(bytes: &[u8]) -> (r: String)
    ensures
        r@ == utf8_lossy(bytes@),
{
    String::from_utf8_lossy(bytes).into_owned()
}

/// Reads a gzip stream to its end with `flate2::read::GzDecoder`; what was
/// decoded before any error is kept.  The result is named by
/// `gzip_decoded`.
#[verifier::external_body]
fn gunzip(data: &[u8]) -> (r: Vec<u8>)
    ensures
        r@ == gzip_decoded(data@),
{
    let mut decoded = Vec::new();
    let _ = std::io::Read::read_to_end(&mut flate2::read::GzDecoder::new(data), &mut decoded);
    decoded
}

/// The text that `Read::read_to_string` reads from a
/// `flate2::read::GzDecoder` over some bytes (empty when the decoded bytes
/// are not valid UTF-8, as far as they decode otherwise).
pub uninterp spec fn gzip_text(data: Seq<u8>) -> Seq<char>;

/// What `Read::read_to_end` reads from a `flate2::read::GzDecoder` over
/// some bytes, stopped after `limit` bytes by `Read::take`; none when
/// decoding fails.
pub uninterp spec fn gzip_limited(data: Seq<u8>, limit: u64) -> Option<Seq<u8>>;

/// Reads a gzip stream as text with `flate2::read::GzDecoder` and
/// `Read::read_to_string`; the text is named by `gzip_text`.
#[verifier::external_body]
fn gunzip_text(data: &[u8]) -> (r: String)
    ensures
        r@ == gzip_text(data@),
{
    let mut text = String::new();
    let _ = std::io::Read::read_to_string(&mut flate2::read::GzDecoder::new(data), &mut text);
    text
}

/// Reads at most `limit` decoded bytes of a gzip stream with
/// `flate2::read::GzDecoder`, `Read::take` and `Read::read_to_end`; none
/// when that fails. `take` never yields more than `limit` bytes.
#[verifier::external_body]
fn gunzip_limited(data: &[u8], limit: u64) -> (r: Option<Vec<u8>>)
    ensures
        match r {
            Some(v) => gzip_limited(data@, limit) == Some(v@) && v@.len() <= limit,
            None => gzip_limited(data@, limit) is None,
        },
{
    let mut decoded = Vec::new();
    std::io::Read::read_to_end(&mut std::io::Read::take(flate2::read::GzDecoder::new(data), limit), &mut decoded).ok()?;
    Some(decoded)
}

/// The extension of a path's file name, as `Path::extension` gives it:
/// what follows the last dot, when that dot is not the name's first
/// character.
pub open spec fn extension_of(path: Seq<char>) -> Option<Seq<char>> {
    match file_name_spec(path) {
        Some(n) => {
            let k = after_last_index(n, '.');
            if k <= 1 {
                None
            } else {
                Some(n.skip(k))
            }
        },
        None => None,
    }
}

/// Whether a file is gzip-compressed by its name: its extension is `gz`.
pub open spec fn gzipped_path(path: Seq<char>) -> bool {
    extension_of(path) == Some("gz"@)
}

/// Whether a file's extension is `gz`.
pub fn is_gzipped_path(path: &str) -> (r: bool)
    ensures
        r == gzipped_path(path@),
{
    match file_name(path) {
        Some(n) => {
            let k = rfind_after(&n, '.');
            if k <= 1 {
                false
            } else {
                let tail = slice_chars(&n, k, n.len());
                assert(tail@ =~= n@.skip(k as int));
                chars_eq(&tail, &chars_of("gz"))
            }
        },
        None => false,
    }
}

/// The text of a history log read from `path`: decompressed when the file
/// is gzip-compressed (`.gz`), otherwise read lossily as UTF-8.
pub fn history_text(path: &str, raw: &[u8]) -> (r: String)
    ensures
        r@ == if gzipped_path(path@) {
            gzip_text(raw@)
        } else {
            utf8_lossy(raw@)
        },
{
    if is_gzipped_path(path) {
        gunzip_text(raw)
    } else {
        lossy_text(raw)
    }
}

/// The most of an AppStream catalogue that is read: 32 MiB.
pub const APPSTREAM_LIMIT: u64 = 33554432;

pub open spec fn opt_bytes(r: Option<Vec<u8>>) -> Option<Seq<u8>> {
    match r {
        Some(v) => Some(v@),
        None => None,
    }
}

/// The document of an AppStream catalogue read from `path`, at most 32 MiB
/// of it: decompressed when the file is gzip-compressed (none when that
/// fails), otherwise its first bytes.
pub fn appstream_document(path: &str, raw: &[u8]) -> (r: Option<Vec<u8>>)
    ensures
        gzipped_path(path@) ==> opt_bytes(r) == gzip_limited(raw@, APPSTREAM_LIMIT),
        !gzipped_path(path@) ==> (r matches Some(b) && b@ == raw@.take(
            if raw@.len() <= APPSTREAM_LIMIT {
                raw@.len() as int
            } else {
                APPSTREAM_LIMIT as int
            },
        )),
{
    if is_gzipped_path(path) {
        gunzip_limited(raw, APPSTREAM_LIMIT)
    } else {
        let n: usize = if (raw.len() as u64) <= APPSTREAM_LIMIT {
            raw.len()
        } else {
            APPSTREAM_LIMIT as usize
        };
        let b = slice_bytes(raw, 0, n);
        assert(b@ =~= raw@.take(n as int));
        Some(b)
    }
}

/// Lists a tar archive's entries with `tar::Archive::entries`, which stops
/// at the first entry it cannot read; each entry's path is taken lossily,
/// and its contents are read as text, left empty when they are not valid
/// UTF-8.  The result is named by `tar_entries_of`.
#[verifier::external_body]
fn tar_entries(data: &[u8]) -> (r: Vec<(Option<String>, String)>)
    ensures
        r@.map_values(|e: (Option<String>, String)| (opt_texts_of(e.0), e.1@)) == tar_entries_of(
            data@,
        ),
{
    let mut archive = tar::Archive::new(data);
    let Ok(entries) = archive.entries() else { return Vec::new() };
    entries.flatten().map(|mut entry| {
        let path = entry.path().ok().map(|p| p.to_string_lossy().into_owned());
        let mut text = String::new();
        let _ = std::io::Read::read_to_string(&mut entry, &mut text);
        (path, text)
    }).collect()
}

/// `usize::saturating_add`.
pub open spec fn saturating(n: int) -> int {
    if n > usize::MAX {
        usize::MAX as int
    } else {
        n
    }
}

/// A text without all the copies of a prefix at its start.
pub open spec fn strip_prefixes(s: Seq<char>, prefix: Seq<char>) -> Seq<char>
    decreases s.len(),
{
    if prefix.len() > 0 && prefix.is_prefix_of(s) {
        strip_prefixes(s.skip(prefix.len() as int), prefix)
    } else {
        s
    }
}

/// The member name in an `ar` header: the first sixteen bytes, trimmed and
/// without trailing slashes.
pub open spec fn ar_member_name(header: Seq<u8>) -> Seq<char> {
    strip_suffixes(trim_spec(utf8_lossy(header.subrange(0, 16))), "/"@)
}

/// The member size in an `ar` header: ten decimal bytes at offset 48.
pub open spec fn ar_member_size(header: Seq<u8>) -> Option<nat> {
    crate::number::unsigned_value(trim_spec(utf8_lossy(header.subrange(48, 58))), usize::MAX as nat)
}

/// Where, from `offset` on, the first member named `control.tar…` lies in
/// an `ar` archive; none when a header is unreadable or a member overruns.
pub open spec fn ar_control_from(p: Seq<u8>, offset: int) -> Option<(int, int)>
    decreases p.len() + 2 - offset,
{
    if offset < 0 || offset + 60 > p.len() || p.len() > usize::MAX {
        None
    } else {
        let header = p.subrange(offset, offset + 60);
        match ar_member_size(header) {
            None => None,
            Some(size) => {
                let start = offset + 60;
                let end = saturating(start + size);
                if end > p.len() {
                    None
                } else if "control.tar"@.is_prefix_of(ar_member_name(header)) {
                    Some((start, end))
                } else {
                    ar_control_from(p, saturating(end + size % 2))
                }
            },
        }
    }
}

/// The `!<arch>` magic of an `ar` archive.
pub open spec fn ar_magic(p: Seq<u8>) -> bool {
    p.len() >= 8 && p[0] == 0x21 && p[1] == 0x3c && p[2] == 0x61 && p[3] == 0x72 && p[4] == 0x63
        && p[5] == 0x68 && p[6] == 0x3e && p[7] == 0x0a
}

pub open spec fn ar_control_member(p: Seq<u8>) -> Option<(int, int)> {
    if ar_magic(p) {
        ar_control_from(p, 8)
    } else {
        None
    }
}

fn strip_suffixes_text(s: &Vec<char>, suffix: &str) -> (r: Vec<char>)
    ensures
        r@ == strip_suffixes(s@, suffix@),
{
    strip_suffixes_exec(s, &chars_of(suffix))
}

/// Finds the `control.tar…` member of an `ar` archive: its start and end.
pub fn ar_control_range(payload: &[u8]) -> (r: Option<(usize, usize)>)
    ensures
        match r {
            Some((a, b)) => {
                &&& ar_control_member(payload@) == Some((a as int, b as int))
                &&& a <= b <= payload@.len()
            },
            None => ar_control_member(payload@) is None,
        },
{
    let len = payload.len();
    if !(len >= 8 && payload[0] == 0x21 && payload[1] == 0x3c && payload[2] == 0x61 && payload[3]
        == 0x72 && payload[4] == 0x63 && payload[5] == 0x68 && payload[6] == 0x3e && payload[7]
        == 0x0a) {
        return None;
    }
    proof {
        reveal_strlit("control.tar");
    }
    let prefix = chars_of("control.tar");
    let mut offset: usize = 8;
    while offset <= len && len - offset >= 60
        invariant
            len == payload@.len(),
            prefix@ == "control.tar"@,
            offset <= len + 1,
            ar_control_member(payload@) == ar_control_from(payload@, offset as int),
        decreases len + 2 - offset,
    {
        let header = slice_bytes(payload, offset, offset + 60);
        assert(header@ =~= payload@.subrange(offset as int, offset + 60));
        let size_bytes = slice_bytes(&header, 48, 58);
        assert(size_bytes@ =~= header@.subrange(48, 58));
        let size_text = string_of(&trim_chars(&chars_of(lossy_text(&size_bytes).as_str())));
        let size = match crate::number::parse_usize(size_text.as_str()) {
            Some(v) => v,
            None => return None,
        };
        let start = offset + 60;
        let end = start.saturating_add(size);
        if end > len {
            return None;
        }
        let name_bytes = slice_bytes(&header, 0, 16);
        assert(name_bytes@ =~= header@.subrange(0, 16));
        let name = strip_suffixes_text(&trim_chars(&chars_of(lossy_text(&name_bytes).as_str())), "/");
        if starts_with_chars(&name, &prefix) {
            return Some((start, end));
        }
        offset = end.saturating_add(size % 2);
    }
    None
}

/// A copy of `s[from..to]`.
pub fn slice_bytes(s: &[u8], from: usize, to: usize) -> (r: Vec<u8>)
    requires
        from <= to <= s@.len(),
    ensures
        r@ == s@.subrange(from as int, to as int),
{
    let mut out: Vec<u8> = Vec::new();
    let mut i = from;
    while i < to
        invariant
            from <= i <= to,
            to <= s@.len(),
            out@ == s@.subrange(from as int, i as int),
        decreases to - i,
    {
        out.push(s[i]);
        assert(s@.subrange(from as int, i + 1) =~= s@.subrange(from as int, i as int).push(s@[i as int]));
        i = i + 1;
    }
    out
}

/// The contents of the entry named `control` (after any `./`) in a
/// control archive, gzip-compressed or not.
pub open spec fn control_in_entries(entries: Seq<(Option<Seq<char>>, Seq<char>)>) -> Seq<char>
    decreases entries.len(),
{
    if entries.len() == 0 {
        Seq::empty()
    } else {
        match entries[0].0 {
            Some(p) => if strip_prefixes(p, "./"@) == "control"@ {
                entries[0].1
            } else {
                control_in_entries(entries.drop_first())
            },
            None => control_in_entries(entries.drop_first()),
        }
    }
}

pub open spec fn control_of_spec(data: Seq<u8>) -> Seq<char> {
    let tar = if data.len() >= 2 && data[0] == 0x1f && data[1] == 0x8b {
        gzip_decoded(data)
    } else {
        data
    };
    control_in_entries(tar_entries_of(tar))
}

fn strip_prefixes_exec(s: &Vec<char>, prefix: &Vec<char>) -> (r: Vec<char>)
    ensures
        r@ == strip_prefixes(s@, prefix@),
{
    let mut cur = copy_chars(s);
    while prefix.len() > 0 && starts_with_chars(&cur, prefix)
        invariant
            strip_prefixes(s@, prefix@) == strip_prefixes(cur@, prefix@),
        decreases cur@.len(),
    {
        let next = slice_chars(&cur, prefix.len(), cur.len());
        assert(next@ =~= cur@.skip(prefix@.len() as int));
        cur = next;
    }
    cur
}

/// The `control` file of a package's control archive.
pub fn control_of(data: &[u8]) -> (r: String)
    ensures
        r@ == control_of_spec(data@),
{
    let decoded;
    let tar: &[u8] = if data.len() >= 2 && data[0] == 0x1f && data[1] == 0x8b {
        decoded = gunzip(data);
        decoded.as_slice()
    } else {
        data
    };
    let entries = tar_entries(tar);
    let ghost ev = entries@.map_values(|e: (Option<String>, String)| (opt_texts_of(e.0), e.1@));
    assert(control_of_spec(data@) == control_in_entries(ev));
    proof {
        reveal_strlit("./");
        reveal_strlit("control");
    }
    let dot = chars_of("./");
    let wanted = chars_of("control");
    let mut i: usize = 0;
    assert(ev.skip(0) =~= ev);
    while i < entries.len()
        invariant
            i <= entries@.len(),
            ev == entries@.map_values(|e: (Option<String>, String)| (opt_texts_of(e.0), e.1@)),
            dot@ == "./"@,
            wanted@ == "control"@,
            control_of_spec(data@) == control_in_entries(ev),
            control_in_entries(ev) == control_in_entries(ev.skip(i as int)),
        decreases entries@.len() - i,
    {
        assert(ev.skip(i as int)[0] == ev[i as int]);
        assert(ev.skip(i as int).drop_first() =~= ev.skip(i + 1));
        match &entries[i].0 {
            Some(p) => {
                let stripped = strip_prefixes_exec(&chars_of(p.as_str()), &dot);
                if chars_eq(&stripped, &wanted) {
                    return entries[i].1.clone();
                }
            },
            None => {},
        }
        i = i + 1;
    }
    String::new()
}

/// The `control` file of an OPKG package archive, or nothing.
pub fn ar_control(payload: &[u8]) -> (r: String)
    ensures
        r@ == match ar_control_member(payload@) {
            Some((a, b)) => control_of_spec(payload@.subrange(a, b)),
            None => Seq::empty(),
        },
{
    match ar_control_range(payload) {
        Some((a, b)) => {
            let member = slice_bytes(payload, a, b);
            control_of(&member)
        },
        None => String::new(),
    }
}

/// The first item with the given name, if any.
pub open spec fn first_named_item(items: Seq<Match>, name: Seq<char>) -> Option<Match>
    decreases items.len(),
{
    if items.len() == 0 {
        None
    } else if items[0].name@ == name {
        Some(items[0])
    } else {
        first_named_item(items.drop_first(), name)
    }
}

/// The version of the first installed item with the given name: the
/// installed package that a Slackware or Eopkg archive stands for.
pub fn installed_version_of(items: &Vec<Match>, name: &str) -> (r: Option<String>)
    ensures
        match first_named_item(items@, name@) {
            Some(m) => r matches Some(v) && v@ == m.version@,
            None => r is None,
        },
{
    let mut i: usize = 0;
    assert(items@.skip(0) =~= items@);
    while i < items.len()
        invariant
            i <= items@.len(),
            first_named_item(items@, name@) == first_named_item(items@.skip(i as int), name@),
        decreases items@.len() - i,
    {
        assert(items@.skip(i as int)[0] == items@[i as int]);
        if str_eq(items[i].name.as_str(), name) {
            return Some(items[i].version.clone());
        }
        assert(items@.skip(i as int).drop_first() =~= items@.skip(i + 1));
        i = i + 1;
    }
    assert(items@.skip(i as int) =~= Seq::<Match>::empty());
    None
}

/// The first item with the given id, if any.
pub open spec fn first_with_id(items: Seq<Match>, id: Seq<char>) -> Option<Match>
    decreases items.len(),
{
    if items.len() == 0 {
        None
    } else if items[0].id@ == id {
        Some(items[0])
    } else {
        first_with_id(items.drop_first(), id)
    }
}

/// The installed Flatpak application that a local bundle or reference
/// names (none when the id is empty), found among the Flatpak results for
/// its id.
pub fn flatpak_archive(items: &Vec<Match>, id: &str, source: &str) -> (r: Option<Match>)
    ensures
        id@.len() == 0 ==> r is None,
        id@.len() > 0 ==> match first_with_id(items@, id@) {
            Some(m) => r matches Some(x) && x == (Match {
                source_path: x.source_path,
                evidence: x.evidence,
                ..m
            }) && opt_texts_of(x.source_path) == Some(source@) && x.evidence@
                == "matching local Flatpak bundle or reference"@,
            None => r is None,
        },
{
    if id.is_empty() {
        return None;
    }
    let mut i: usize = 0;
    assert(items@.skip(0) =~= items@);
    while i < items.len()
        invariant
            i <= items@.len(),
            id@.len() > 0,
            first_with_id(items@, id@) == first_with_id(items@.skip(i as int), id@),
        decreases items@.len() - i,
    {
        assert(items@.skip(i as int)[0] == items@[i as int]);
        if str_eq(items[i].id.as_str(), id) {
            let mut m = items[i].duplicate();
            m.source_path = Some(owned(source));
            m.evidence = owned("matching local Flatpak bundle or reference");
            return Some(m);
        }
        assert(items@.skip(i as int).drop_first() =~= items@.skip(i + 1));
        i = i + 1;
    }
    assert(items@.skip(i as int) =~= Seq::<Match>::empty());
    None
}

} // verus!
