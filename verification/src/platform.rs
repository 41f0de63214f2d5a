//! Which native package manager family and which RPM front end the running
//! distribution uses, decided from `/etc/os-release` and the programs that
//! are installed.
use crate::lines::{lines_of, lines_spec, words_of, words_spec};
use crate::text::{chars_eq, chars_of, find_char, first_index, lemma_first_index, slice_chars, string_of};
use crate::util::deep;
use vstd::prelude::*;

verus! {

/// The native packaging family of a distribution.
#[derive(Debug, Clone, Copy, PartialEq, Eq, Structural)]
pub enum NativeFamily {
    Apt,
    Rpm,
    Pacman,
    Apk,
    Xbps,
    Portage,
    Slackware,
    Eopkg,
    Swupd,
    Unknown,
}

/// What the platform rules read of the running system.
pub struct PlatformFacts {
    /// The words of the `ID` and `ID_LIKE` values of `/etc/os-release`.
    pub ids: Vec<String>,
    /// `/run/ostree-booted` exists.
    pub ostree_booted: bool,
    pub has_rpm_ostree: bool,
    pub has_zypper: bool,
    pub has_urpme: bool,
    pub has_apt_get: bool,
    pub has_dnf5: bool,
    pub has_dnf: bool,
    pub has_microdnf: bool,
    pub has_yum: bool,
    pub has_rpm: bool,
    pub has_dpkg_query: bool,
    pub has_pacman: bool,
    pub has_apk: bool,
    pub has_xbps_query: bool,
}

pub open spec fn is_quote(c: char) -> bool {
    c == '\'' || c == '"'
}

/// Leading quote characters removed.
pub open spec fn strip_leading_quotes(s: Seq<char>) -> Seq<char>
    decreases s.len(),
{
    if s.len() > 0 && is_quote(s[0]) {
        strip_leading_quotes(s.drop_first())
    } else {
        s
    }
}

/// Trailing quote characters removed.
pub open spec fn strip_trailing_quotes(s: Seq<char>) -> Seq<char>
    decreases s.len(),
{
    if s.len() > 0 && is_quote(s.last()) {
        strip_trailing_quotes(s.drop_last())
    } else {
        s
    }
}

/// `trim_matches(['\'', '"'])`.
pub open spec fn trim_quotes(s: Seq<char>) -> Seq<char> {
    strip_trailing_quotes(strip_leading_quotes(s))
}

pub(crate) fn trim_quotes_exec(s: &[char]) -> (r: Vec<char>)
    ensures
        r@ == trim_quotes(s@),
{
    let mut start: usize = 0;
    assert(s@.skip(0) =~= s@);
    while start < s.len() && (s[start] == '\'' || s[start] == '"')
        invariant
            start <= s@.len(),
            strip_leading_quotes(s@) == strip_leading_quotes(s@.skip(start as int)),
        decreases s@.len() - start,
    {
        assert(s@.skip(start as int).drop_first() =~= s@.skip(start + 1));
        start = start + 1;
    }
    let ghost lead = s@.skip(start as int);
    assert(strip_leading_quotes(s@) == lead);
    let mut end: usize = s.len();
    assert(lead.take(end - start) =~= lead);
    while end > start && (s[end - 1] == '\'' || s[end - 1] == '"')
        invariant
            start <= end <= s@.len(),
            lead == s@.skip(start as int),
            strip_trailing_quotes(lead) == strip_trailing_quotes(lead.take(end - start)),
        decreases end,
    {
        assert(lead.take(end - start).last() == s@[end - 1]);
        assert(lead.take(end - start).drop_last() =~= lead.take(end - 1 - start));
        end = end - 1;
    }
    proof {
        if end > start {
            assert(lead.take(end - start).last() == s@[end - 1]);
        }
    }
    let r = slice_chars(s, start, end);
    assert(r@ =~= lead.take(end - start));
    r
}

/// The value of the last `key=value` line of an os-release text, with its
/// quotes trimmed.
pub open spec fn release_value_in(lines: Seq<Seq<char>>, key: Seq<char>) -> Option<Seq<char>>
    decreases lines.len(),
{
    if lines.len() == 0 {
        None
    } else {
        let line = lines.last();
        let at = first_index(line, '=');
        if at < line.len() && line.take(at) == key {
            Some(trim_quotes(line.skip(at + 1)))
        } else {
            release_value_in(lines.drop_last(), key)
        }
    }
}

pub open spec fn release_value(text: Seq<char>, key: Seq<char>) -> Option<Seq<char>> {
    release_value_in(lines_spec(text), key)
}

/// The value of `key` in an os-release text, as the last assignment gives
/// it.
pub fn os_release_value(text: &str, key: &str) -> (r: Option<String>)
    ensures
        match r {
            Some(v) => release_value(text@, key@) == Some(v@),
            None => release_value(text@, key@) is None,
        },
{
    let cs = chars_of(text);
    let k = chars_of(key);
    let lines = lines_of(&cs);
    let ghost ls = deep(lines@);
    let mut i: usize = lines.len();
    assert(ls.take(i as int) =~= ls);
    while i > 0
        invariant
            i <= lines@.len(),
            ls == deep(lines@),
            ls == lines_spec(text@),
            k@ == key@,
            release_value_in(ls, key@) == release_value_in(ls.take(i as int), key@),
        decreases i,
    {
        let line = &lines[i - 1];
        assert(ls.take(i as int).last() == line@);
        let at = find_char(line, '=');
        proof {
            lemma_first_index(line@, '=');
        }
        if at < line.len() {
            let name = slice_chars(line, 0, at);
            assert(name@ =~= line@.take(at as int));
            if chars_eq(&name, &k) {
                let rest = slice_chars(line, at + 1, line.len());
                assert(rest@ =~= line@.skip(at + 1));
                let value = trim_quotes_exec(&rest);
                return Some(string_of(&value));
            }
        }
        assert(ls.take(i as int).drop_last() =~= ls.take(i - 1));
        i = i - 1;
    }
    None
}

/// The distribution identifiers: the words of `ID`, then those of
/// `ID_LIKE`.
pub open spec fn distro_ids_spec(text: Seq<char>) -> Seq<Seq<char>> {
    let id = match release_value(text, "ID"@) {
        Some(v) => words_spec(v),
        None => Seq::empty(),
    };
    let like = match release_value(text, "ID_LIKE"@) {
        Some(v) => words_spec(v),
        None => Seq::empty(),
    };
    id + like
}

fn push_words(out: &mut Vec<String>, value: &Option<String>)
    ensures
        final(out)@.map_values(|s: String| s@) == old(out)@.map_values(|s: String| s@) + match *value {
            Some(v) => words_spec(v@),
            None => Seq::<Seq<char>>::empty(),
        },
{
    match value {
        None => {
            assert(old(out)@.map_values(|s: String| s@) + Seq::<Seq<char>>::empty() =~= old(
                out,
            )@.map_values(|s: String| s@));
        },
        Some(v) => {
            let cs = chars_of(v.as_str());
            let words = words_of(&cs);
            let ghost start = out@.map_values(|s: String| s@);
            for j in 0..words.len()
                invariant
                    out@.map_values(|s: String| s@) == start + deep(words@).take(j as int),
            {
                let ghost before = out@;
                out.push(string_of(&words[j]));
                assert(out@.map_values(|s: String| s@) =~= before.map_values(|s: String| s@).push(
                    words@[j as int]@,
                ));
                assert(deep(words@).take(j + 1) =~= deep(words@).take(j as int).push(
                    words@[j as int]@,
                ));
                assert(start + deep(words@).take(j + 1) =~= (start + deep(words@).take(
                    j as int,
                )).push(words@[j as int]@));
            }
            assert(deep(words@).take(words@.len() as int) =~= deep(words@));
        },
    }
}

/// The words of `ID` and `ID_LIKE` in an os-release text.
pub fn distro_ids(text: &str) -> (r: Vec<String>)
    ensures
        r@.map_values(|s: String| s@) == distro_ids_spec(text@),
{
    let mut out: Vec<String> = Vec::new();
    let id = os_release_value(text, "ID");
    let like = os_release_value(text, "ID_LIKE");
    assert(out@.map_values(|s: String| s@) =~= Seq::<Seq<char>>::empty());
    push_words(&mut out, &id);
    push_words(&mut out, &like);
    assert(out@.map_values(|s: String| s@) =~= distro_ids_spec(text@));
    out
}

/// Whether the identifiers name `id`.
pub open spec fn has_id(ids: Seq<String>, id: Seq<char>) -> bool {
    exists|i: int| 0 <= i < ids.len() && #[trigger] ids[i]@ == id
}

fn contains_id(ids: &Vec<String>, id: &str) -> (r: bool)
    ensures
        r == has_id(ids@, id@),
{
    for i in 0..ids.len()
        invariant
            forall|j: int| 0 <= j < i ==> #[trigger] ids@[j]@ != id@,
    {
        if crate::text::str_eq(ids[i].as_str(), id) {
            return true;
        }
    }
    false
}

/// The RPM front end of the system: rpm-ostree on booted OSTree systems,
/// the distribution's own tool on SUSE, Mageia and ALT, otherwise the
/// first of DNF, YUM and plain RPM that is installed.
pub open spec fn rpm_manager_spec(f: PlatformFacts) -> Option<Seq<char>> {
    let ids = f.ids@;
    if f.ostree_booted && f.has_rpm_ostree {
        Some("RPM-OSTree"@)
    } else if has_id(ids, "opensuse"@) || has_id(ids, "suse"@) || has_id(ids, "sles"@) {
        if f.has_zypper {
            Some("Zypper"@)
        } else {
            None
        }
    } else if has_id(ids, "mageia"@) || has_id(ids, "openmandriva"@) {
        if f.has_urpme {
            Some("URPMI"@)
        } else {
            None
        }
    } else if has_id(ids, "altlinux"@) && f.has_apt_get {
        Some("APT-RPM"@)
    } else if f.has_dnf5 || f.has_dnf || f.has_microdnf {
        Some("DNF"@)
    } else if f.has_yum {
        Some("YUM"@)
    } else if f.has_rpm {
        Some("RPM"@)
    } else {
        None
    }
}

pub open spec fn opt_view(o: Option<&str>) -> Option<Seq<char>> {
    match o {
        Some(s) => Some(s@),
        None => None,
    }
}

pub fn rpm_manager(f: &PlatformFacts) -> (r: Option<&'static str>)
    ensures
        opt_view(r) == rpm_manager_spec(*f),
{
    let ids = &f.ids;
    if f.ostree_booted && f.has_rpm_ostree {
        Some("RPM-OSTree")
    } else if contains_id(ids, "opensuse") || contains_id(ids, "suse") || contains_id(ids, "sles") {
        if f.has_zypper {
            Some("Zypper")
        } else {
            None
        }
    } else if contains_id(ids, "mageia") || contains_id(ids, "openmandriva") {
        if f.has_urpme {
            Some("URPMI")
        } else {
            None
        }
    } else if contains_id(ids, "altlinux") && f.has_apt_get {
        Some("APT-RPM")
    } else if f.has_dnf5 || f.has_dnf || f.has_microdnf {
        Some("DNF")
    } else if f.has_yum {
        Some("YUM")
    } else if f.has_rpm {
        Some("RPM")
    } else {
        None
    }
}

/// The installed DNF front end, preferring dnf5, then dnf, then microdnf.
pub open spec fn dnf_binary_spec(f: PlatformFacts) -> Option<Seq<char>> {
    if f.has_dnf5 {
        Some("dnf5"@)
    } else if f.has_dnf {
        Some("dnf"@)
    } else if f.has_microdnf {
        Some("microdnf"@)
    } else {
        None
    }
}

pub fn dnf_binary(f: &PlatformFacts) -> (r: Option<&'static str>)
    ensures
        opt_view(r) == dnf_binary_spec(*f),
{
    if f.has_dnf5 {
        Some("dnf5")
    } else if f.has_dnf {
        Some("dnf")
    } else if f.has_microdnf {
        Some("microdnf")
    } else {
        None
    }
}

/// The native family: named by the distribution identifiers first, then
/// guessed from the package tools that are installed.
pub open spec fn native_family_spec(f: PlatformFacts) -> NativeFamily {
    let ids = f.ids@;
    if has_id(ids, "debian"@) || has_id(ids, "ubuntu"@) || has_id(ids, "linuxmint"@) || has_id(
        ids,
        "pop"@,
    ) {
        NativeFamily::Apt
    } else if has_id(ids, "arch"@) || has_id(ids, "manjaro"@) || has_id(ids, "endeavouros"@) {
        NativeFamily::Pacman
    } else if has_id(ids, "alpine"@) {
        NativeFamily::Apk
    } else if has_id(ids, "void"@) {
        NativeFamily::Xbps
    } else if has_id(ids, "gentoo"@) {
        NativeFamily::Portage
    } else if has_id(ids, "slackware"@) {
        NativeFamily::Slackware
    } else if has_id(ids, "solus"@) {
        NativeFamily::Eopkg
    } else if has_id(ids, "clear-linux-os"@) {
        NativeFamily::Swupd
    } else if rpm_manager_spec(f) is Some {
        NativeFamily::Rpm
    } else if f.has_dpkg_query {
        NativeFamily::Apt
    } else if f.has_pacman {
        NativeFamily::Pacman
    } else if f.has_apk {
        NativeFamily::Apk
    } else if f.has_xbps_query {
        NativeFamily::Xbps
    } else {
        NativeFamily::Unknown
    }
}

pub fn native_family(f: &PlatformFacts) -> (r: NativeFamily)
    ensures
        r == native_family_spec(*f),
{
    let ids = &f.ids;
    if contains_id(ids, "debian") || contains_id(ids, "ubuntu") || contains_id(ids, "linuxmint")
        || contains_id(ids, "pop") {
        NativeFamily::Apt
    } else if contains_id(ids, "arch") || contains_id(ids, "manjaro") || contains_id(
        ids,
        "endeavouros",
    ) {
        NativeFamily::Pacman
    } else if contains_id(ids, "alpine") {
        NativeFamily::Apk
    } else if contains_id(ids, "void") {
        NativeFamily::Xbps
    } else if contains_id(ids, "gentoo") {
        NativeFamily::Portage
    } else if contains_id(ids, "slackware") {
        NativeFamily::Slackware
    } else if contains_id(ids, "solus") {
        NativeFamily::Eopkg
    } else if contains_id(ids, "clear-linux-os") {
        NativeFamily::Swupd
    } else if rpm_manager(f).is_some() {
        NativeFamily::Rpm
    } else if f.has_dpkg_query {
        NativeFamily::Apt
    } else if f.has_pacman {
        NativeFamily::Pacman
    } else if f.has_apk {
        NativeFamily::Apk
    } else if f.has_xbps_query {
        NativeFamily::Xbps
    } else {
        NativeFamily::Unknown
    }
}

/// A transactional system: SUSE's transactional-update is configured and
/// installed.
pub fn transactional_system(configured: bool, has_transactional_update: bool) -> (r: bool)
    ensures
        r == (configured && has_transactional_update),
{
    configured && has_transactional_update
}

} // verus!
