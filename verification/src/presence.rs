//! Whether a selected result is still installed, and at which version:
//! the commands that ask each manager and how their answers are read.
use crate::lines::{lines_of, lines_spec, words_of, words_spec};
use crate::model::{texts, Match};
use crate::owner::dpkg_installed;
use crate::provenance::opt_texts_of;
use crate::removal::{push_word, v2, v3, v4, v5};
use crate::text::{
    chars_eq, chars_of, copy_chars, find_char, first_index, lemma_first_index, owned, push_char,
    push_str, slice_chars, starts_with_chars, str_eq, string_of, trim_chars, trim_spec,
};
use crate::util::deep;
use vstd::prelude::*;

verus! {

/// The managers whose packages `rpm -q` knows.
pub open spec fn rpm_family(b: Seq<char>) -> bool {
    b == "DNF"@ || b == "YUM"@ || b == "RPM"@ || b == "RPM-OSTree"@ || b == "Zypper"@ || b
        == "URPMI"@ || b == "APT-RPM"@
}

fn is_rpm_family(b: &str) -> (r: bool)
    ensures
        r == rpm_family(b@),
{
    str_eq(b, "DNF") || str_eq(b, "YUM") || str_eq(b, "RPM") || str_eq(b, "RPM-OSTree") || str_eq(
        b,
        "Zypper",
    ) || str_eq(b, "URPMI") || str_eq(b, "APT-RPM")
}

/// The managers whose results are files on disk.
pub open spec fn file_backed(b: Seq<char>) -> bool {
    b == "AppImage"@ || b == "Standalone"@ || b == "Gear Lever"@
}

/// Where a Flatpak result is installed, as `flatpak` options name it.
pub open spec fn flatpak_location(item: Match) -> Seq<char> {
    if item.scope@ == "user"@ {
        "--user"@
    } else if item.installation@.len() == 0 {
        "--system"@
    } else {
        "--installation="@ + item.installation@
    }
}

fn flatpak_location_of(item: &Match) -> (r: String)
    ensures
        r@ == flatpak_location(*item),
{
    if str_eq(item.scope.as_str(), "user") {
        owned("--user")
    } else if item.installation.as_str().is_empty() {
        owned("--system")
    } else {
        let mut l = owned("--installation=");
        push_str(&mut l, item.installation.as_str());
        l
    }
}

/// The command that prints a result's installed version.
pub open spec fn version_command_spec(item: Match) -> Option<Seq<Seq<char>>> {
    let b = item.backend@;
    let id = item.id@;
    if b == "APT"@ {
        Some(seq!["dpkg-query"@, "-W"@, "-f=${db:Status-Abbrev}\t${Version}\n"@, id])
    } else if rpm_family(b) {
        Some(seq!["rpm"@, "-q"@, "--qf"@, "%{VERSION}-%{RELEASE}\n"@, "--"@, id])
    } else if b == "Pacman"@ {
        Some(seq!["pacman"@, "-Q"@, id])
    } else if b == "APK"@ {
        Some(seq!["apk"@, "info"@, "--all"@, id])
    } else if b == "XBPS"@ {
        Some(seq!["xbps-query"@, "--property"@, "pkgver"@, id])
    } else if b == "Flatpak"@ {
        Some(seq!["flatpak"@, "info"@, flatpak_location(item), "--show-version"@, id])
    } else if b == "Snap"@ {
        Some(seq!["snap"@, "list"@, id])
    } else if b == "Homebrew"@ {
        Some(seq!["brew"@, "list"@, "--versions"@, id])
    } else if b == "Homebrew Cask"@ {
        Some(seq!["brew"@, "list"@, "--cask"@, "--versions"@, id])
    } else if b == "Cargo"@ {
        Some(seq!["cargo"@, "install"@, "--list"@])
    } else {
        None
    }
}

/// The command that prints a result's installed version, for the managers
/// that have one.
pub fn version_command(item: &Match) -> (r: Option<Vec<String>>)
    ensures
        match r {
            Some(v) => version_command_spec(*item) == Some(texts(v@)),
            None => version_command_spec(*item) is None,
        },
{
    let b = item.backend.as_str();
    let id = item.id.as_str();
    if str_eq(b, "APT") {
        Some(v4("dpkg-query", "-W", "-f=${db:Status-Abbrev}\t${Version}\n", id))
    } else if is_rpm_family(b) {
        let c = v5("rpm", "-q", "--qf", "%{VERSION}-%{RELEASE}\n", "--");
        Some(push_word(c, id))
    } else if str_eq(b, "Pacman") {
        Some(v3("pacman", "-Q", id))
    } else if str_eq(b, "APK") {
        Some(v4("apk", "info", "--all", id))
    } else if str_eq(b, "XBPS") {
        Some(v4("xbps-query", "--property", "pkgver", id))
    } else if str_eq(b, "Flatpak") {
        let location = flatpak_location_of(item);
        Some(v5("flatpak", "info", location.as_str(), "--show-version", id))
    } else if str_eq(b, "Snap") {
        Some(v3("snap", "list", id))
    } else if str_eq(b, "Homebrew") {
        Some(v4("brew", "list", "--versions", id))
    } else if str_eq(b, "Homebrew Cask") {
        Some(v5("brew", "list", "--cask", "--versions", id))
    } else if str_eq(b, "Cargo") {
        Some(v3("cargo", "install", "--list"))
    } else {
        None
    }
}

/// A word of a text, or nothing.
pub open spec fn word_at(text: Seq<char>, n: int) -> Seq<char> {
    let w = words_spec(text);
    if 0 <= n < w.len() {
        w[n]
    } else {
        Seq::empty()
    }
}

/// The version in `apk info --all` output: the first word after `id-` on
/// the first line that has one.
pub open spec fn apk_version(lines: Seq<Seq<char>>, prefix: Seq<char>) -> Seq<char>
    decreases lines.len(),
{
    if lines.len() == 0 {
        Seq::empty()
    } else if prefix.is_prefix_of(lines[0]) && words_spec(lines[0].skip(prefix.len() as int)).len()
        > 0 {
        words_spec(lines[0].skip(prefix.len() as int))[0]
    } else {
        apk_version(lines.drop_first(), prefix)
    }
}

/// A text without a prefix, when it has it.
pub open spec fn without_prefix(s: Seq<char>, prefix: Seq<char>) -> Seq<char> {
    if prefix.is_prefix_of(s) {
        s.skip(prefix.len() as int)
    } else {
        s
    }
}

/// The version in `xbps-query --property pkgver` output.
pub open spec fn xbps_version(text: Seq<char>, id: Seq<char>) -> Seq<char> {
    let value = trim_spec(without_prefix(trim_spec(text), "pkgver:"@));
    without_prefix(value, id + seq!['-'])
}

/// A text without leading `c`s.
pub open spec fn strip_start(s: Seq<char>, c: char) -> Seq<char>
    decreases s.len(),
{
    if s.len() > 0 && s[0] == c {
        strip_start(s.drop_first(), c)
    } else {
        s
    }
}

/// A text without trailing `c`s.
pub open spec fn strip_end(s: Seq<char>, c: char) -> Seq<char>
    decreases s.len(),
{
    if s.len() > 0 && s.last() == c {
        strip_end(s.drop_last(), c)
    } else {
        s
    }
}

/// The version in `cargo install --list` output: from the line
/// `id vVERSION:`.
pub open spec fn cargo_version(lines: Seq<Seq<char>>, id: Seq<char>) -> Seq<char>
    decreases lines.len(),
{
    if lines.len() == 0 {
        Seq::empty()
    } else if (id + " v"@).is_prefix_of(lines[0]) {
        strip_end(strip_start(word_at(lines[0], 1), 'v'), ':')
    } else {
        cargo_version(lines.drop_first(), id)
    }
}

/// The version in `dpkg-query` output: after the tab, when the status says
/// installed.
pub open spec fn apt_version(text: Seq<char>) -> Seq<char> {
    let at = first_index(text, '\t');
    if at < text.len() && dpkg_installed(text.take(at)) {
        trim_spec(text.skip(at + 1))
    } else {
        Seq::empty()
    }
}

/// What a manager's answer says of the installed version, before the last
/// trim.
pub open spec fn version_answer(backend: Seq<char>, id: Seq<char>, text: Seq<char>) -> Seq<char> {
    if backend == "APT"@ {
        apt_version(text)
    } else if backend == "Pacman"@ || backend == "Homebrew"@ || backend == "Homebrew Cask"@ {
        trim_spec(word_at(text, 1))
    } else if backend == "APK"@ {
        trim_spec(apk_version(lines_spec(text), id + seq!['-']))
    } else if backend == "XBPS"@ {
        trim_spec(xbps_version(text, id))
    } else if backend == "Snap"@ {
        trim_spec(
            if lines_spec(text).len() > 1 {
                word_at(lines_spec(text)[1], 1)
            } else {
                Seq::empty()
            },
        )
    } else if backend == "Cargo"@ {
        trim_spec(cargo_version(lines_spec(text), id))
    } else {
        trim_spec(text)
    }
}

/// The installed version a manager reported: the first line of its
/// answer, when there is one.
pub open spec fn version_text_spec(backend: Seq<char>, id: Seq<char>, text: Seq<char>) -> Option<Seq<char>> {
    let value = version_answer(backend, id, text);
    if value.len() > 0 {
        Some(if lines_spec(value).len() > 0 {
            lines_spec(value)[0]
        } else {
            Seq::empty()
        })
    } else {
        None
    }
}

fn word_of(text: &Vec<char>, n: usize) -> (r: Vec<char>)
    ensures
        r@ == word_at(text@, n as int),
{
    let w = words_of(text);
    if n < w.len() {
        assert(deep(w@)[n as int] == w@[n as int]@);
        copy_chars(&w[n])
    } else {
        Vec::new()
    }
}

fn join_dash(id: &str, sep: &str) -> (r: Vec<char>)
    ensures
        r@ == id@ + sep@,
{
    let mut s = owned(id);
    push_str(&mut s, sep);
    chars_of(s.as_str())
}

fn without_prefix_of(s: &Vec<char>, prefix: &Vec<char>) -> (r: Vec<char>)
    ensures
        r@ == without_prefix(s@, prefix@),
{
    if starts_with_chars(s, prefix) {
        let r = slice_chars(s, prefix.len(), s.len());
        assert(r@ =~= s@.skip(prefix@.len() as int));
        r
    } else {
        copy_chars(s)
    }
}

fn strip_start_of(s: &Vec<char>, c: char) -> (r: Vec<char>)
    ensures
        r@ == strip_start(s@, c),
{
    let mut i: usize = 0;
    assert(s@.skip(0) =~= s@);
    while i < s.len() && s[i] == c
        invariant
            i <= s@.len(),
            strip_start(s@, c) == strip_start(s@.skip(i as int), c),
        decreases s@.len() - i,
    {
        assert(s@.skip(i as int).drop_first() =~= s@.skip(i + 1));
        i = i + 1;
    }
    assert(s@.skip(i as int).len() > 0 ==> s@.skip(i as int)[0] == s@[i as int]);
    slice_chars(s, i, s.len())
}

fn strip_end_of(s: &Vec<char>, c: char) -> (r: Vec<char>)
    ensures
        r@ == strip_end(s@, c),
{
    let mut n: usize = s.len();
    assert(s@.take(n as int) =~= s@);
    while n > 0 && s[n - 1] == c
        invariant
            n <= s@.len(),
            strip_end(s@, c) == strip_end(s@.take(n as int), c),
        decreases n,
    {
        assert(s@.take(n as int).drop_last() =~= s@.take(n - 1));
        n = n - 1;
    }
    assert(s@.take(n as int).len() > 0 ==> s@.take(n as int).last() == s@[n - 1]);
    slice_chars(s, 0, n)
}

fn apk_version_of(lines: &Vec<Vec<char>>, prefix: &Vec<char>) -> (r: Vec<char>)
    ensures
        r@ == apk_version(deep(lines@), prefix@),
{
    let ghost ls = deep(lines@);
    let mut i: usize = 0;
    assert(ls.skip(0) =~= ls);
    while i < lines.len()
        invariant
            i <= lines@.len(),
            ls == deep(lines@),
            apk_version(ls, prefix@) == apk_version(ls.skip(i as int), prefix@),
        decreases lines@.len() - i,
    {
        assert(ls.skip(i as int)[0] == lines@[i as int]@);
        let line = &lines[i];
        if starts_with_chars(line, prefix) {
            let rest = slice_chars(line, prefix.len(), line.len());
            assert(rest@ =~= line@.skip(prefix@.len() as int));
            let w = words_of(&rest);
            if w.len() > 0 {
                assert(deep(w@)[0] == w@[0]@);
                return copy_chars(&w[0]);
            }
        }
        assert(ls.skip(i as int).drop_first() =~= ls.skip(i + 1));
        i = i + 1;
    }
    Vec::new()
}

fn cargo_version_of(lines: &Vec<Vec<char>>, id: &str) -> (r: Vec<char>)
    ensures
        r@ == cargo_version(deep(lines@), id@),
{
    let ghost ls = deep(lines@);
    let prefix = join_dash(id, " v");
    let mut i: usize = 0;
    assert(ls.skip(0) =~= ls);
    while i < lines.len()
        invariant
            i <= lines@.len(),
            ls == deep(lines@),
            prefix@ == id@ + " v"@,
            cargo_version(ls, id@) == cargo_version(ls.skip(i as int), id@),
        decreases lines@.len() - i,
    {
        assert(ls.skip(i as int)[0] == lines@[i as int]@);
        let line = &lines[i];
        if starts_with_chars(line, &prefix) {
            let w = word_of(line, 1);
            return strip_end_of(&strip_start_of(&w, 'v'), ':');
        }
        assert(ls.skip(i as int).drop_first() =~= ls.skip(i + 1));
        i = i + 1;
    }
    Vec::new()
}

/// Reads the installed version from a manager's answer.
pub fn version_text(backend: &str, id: &str, text: &str) -> (r: Option<String>)
    ensures
        opt_texts_of(r) == version_text_spec(backend@, id@, text@),
{
    let t = chars_of(text);
    let answer: Vec<char> = if str_eq(backend, "APT") {
        let at = find_char(&t, '\t');
        proof {
            lemma_first_index(t@, '\t');
        }
        if at < t.len() {
            let status = slice_chars(&t, 0, at);
            assert(status@ =~= t@.take(at as int));
            if status.len() >= 2 && (status[0] as u32) < 0x80 && status[1] == 'i' {
                let rest = slice_chars(&t, at + 1, t.len());
                assert(rest@ =~= t@.skip(at + 1));
                trim_chars(&rest)
            } else {
                Vec::new()
            }
        } else {
            Vec::new()
        }
    } else if str_eq(backend, "Pacman") || str_eq(backend, "Homebrew") || str_eq(
        backend,
        "Homebrew Cask",
    ) {
        trim_chars(&word_of(&t, 1))
    } else if str_eq(backend, "APK") {
        let lines = lines_of(&t);
        trim_chars(&apk_version_of(&lines, &join_dash(id, "-")))
    } else if str_eq(backend, "XBPS") {
        let value = trim_chars(&without_prefix_of(&trim_chars(&t), &chars_of("pkgver:")));
        trim_chars(&without_prefix_of(&value, &join_dash(id, "-")))
    } else if str_eq(backend, "Snap") {
        let lines = lines_of(&t);
        if lines.len() > 1 {
            assert(deep(lines@)[1] == lines@[1]@);
            trim_chars(&word_of(&lines[1], 1))
        } else {
            Vec::new()
        }
    } else if str_eq(backend, "Cargo") {
        let lines = lines_of(&t);
        trim_chars(&cargo_version_of(&lines, id))
    } else {
        trim_chars(&t)
    };
    proof {
        assert(seq!['-'] =~= "-"@) by {
            reveal_strlit("-");
        }
    }
    assert(answer@ == version_answer(backend@, id@, text@));
    if answer.len() == 0 {
        return None;
    }
    let lines = lines_of(&answer);
    if lines.len() > 0 {
        assert(deep(lines@)[0] == lines@[0]@);
        Some(string_of(&lines[0]))
    } else {
        Some(String::new())
    }
}

// ---------------------------------------------------------------------------
// After a selection
// ---------------------------------------------------------------------------

/// Why a selection can no longer be removed as chosen: it is gone, or its
/// version changed since it was shown.
pub open spec fn revalidation_spec(item: Match, present: Option<bool>, current: Option<Seq<char>>) -> Option<Seq<char>> {
    if present == Some(false) {
        Some(item.name@ + " is no longer installed"@)
    } else if item.version@.len() > 0 && current is Some && current.unwrap() != item.version@ {
        Some(
            item.name@ + " changed from version "@ + item.version@ + " to "@ + current.unwrap()
                + " after selection"@,
        )
    } else {
        None
    }
}

pub fn revalidation_problem(item: &Match, present: Option<bool>, current: &Option<String>) -> (r: Option<String>)
    ensures
        opt_texts_of(r) == revalidation_spec(*item, present, opt_texts_of(*current)),
{
    if present == Some(false) {
        let mut m = item.name.clone();
        push_str(&mut m, " is no longer installed");
        return Some(m);
    }
    if !item.version.as_str().is_empty() {
        match current {
            Some(c) => {
                if !str_eq(c.as_str(), item.version.as_str()) {
                    let mut m = item.name.clone();
                    push_str(&mut m, " changed from version ");
                    push_str(&mut m, item.version.as_str());
                    push_str(&mut m, " to ");
                    push_str(&mut m, c.as_str());
                    push_str(&mut m, " after selection");
                    return Some(m);
                }
            },
            None => {},
        }
    }
    None
}

/// The line that reports a selection after the removal ran.
pub open spec fn result_line_spec(name: Seq<char>, backend: Seq<char>, present: Option<bool>) -> Seq<char> {
    let tail = name + " ["@ + backend + "]"@;
    match present {
        Some(false) => "  Removed: "@ + tail,
        Some(true) => "  Still installed: "@ + tail,
        None => "  Pending or unverifiable: "@ + tail,
    }
}

pub fn result_line(item: &Match, present: Option<bool>) -> (r: String)
    ensures
        r@ == result_line_spec(crate::util::sanitize_spec(item.name@), crate::util::sanitize_spec(item.backend@), present),
{
    let mut line = match present {
        Some(false) => owned("  Removed: "),
        Some(true) => owned("  Still installed: "),
        None => owned("  Pending or unverifiable: "),
    };
    push_str(&mut line, crate::util::sanitize(item.name.as_str()).as_str());
    push_str(&mut line, " [");
    push_str(&mut line, crate::util::sanitize(item.backend.as_str()).as_str());
    push_str(&mut line, "]");
    line
}


// ---------------------------------------------------------------------------
// Whether a result is still installed
// ---------------------------------------------------------------------------

/// The managers whose answer to the version command is the answer.
pub open spec fn version_checked(b: Seq<char>) -> bool {
    b == "Flatpak"@ || b == "APT"@ || rpm_family(b) || b == "Pacman"@ || b == "APK"@ || b
        == "XBPS"@ || b == "Snap"@ || b == "Homebrew"@ || b == "Homebrew Cask"@ || b == "Cargo"@
}

/// The command that asks a manager whether the result is installed.
pub open spec fn presence_command_spec(item: Match) -> Option<Seq<Seq<char>>> {
    let b = item.backend@;
    let id = item.id@;
    if b == "OPKG"@ {
        Some(seq!["opkg"@, "status"@, id])
    } else if b == "Eopkg"@ {
        Some(seq!["eopkg"@, "info"@, "--installed"@, id])
    } else if b == "Swupd"@ {
        Some(seq!["swupd"@, "bundle-list"@, "--status"@, "--quiet"@])
    } else if b == "Swupd 3rd-party"@ {
        Some(seq!["swupd"@, "3rd-party"@, "bundle-list"@, "--repo"@, item.origin@])
    } else if b == "Pipx"@ {
        Some(
            if item.scope@ == "system"@ {
                seq!["pipx"@, "list"@, "--json"@, "--global"@]
            } else {
                seq!["pipx"@, "list"@, "--json"@]
            },
        )
    } else if b == "UV Tool"@ {
        Some(seq!["uv"@, "tool"@, "list"@])
    } else if b == "NPM"@ {
        Some(seq!["npm"@, "list"@, "--global"@, "--depth=0"@, "--json"@])
    } else if b == "Nix"@ {
        Some(
            if item.profile@.len() > 0 {
                seq!["nix"@, "profile"@, "list"@, "--json"@, "--profile"@, item.profile@]
            } else {
                seq!["nix"@, "profile"@, "list"@, "--json"@]
            },
        )
    } else if b == "Nix Legacy"@ {
        Some(seq!["nix-env"@, "--query"@, "--installed"@])
    } else if b == "Guix"@ {
        Some(seq!["guix"@, "package"@, "--profile="@ + item.profile@, "--list-installed"@, id])
    } else if b == "Conda"@ || b == "Micromamba"@ {
        Some(
            seq![
                if b == "Conda"@ {
                    "conda"@
                } else {
                    "micromamba"@
                },
                "list"@,
                "--json"@,
                "--prefix"@,
                item.profile@,
                id,
            ],
        )
    } else {
        None
    }
}

/// How to tell whether a result is still installed.
pub enum PresenceCheck {
    /// Ask for its version: installed when there is one.
    Version,
    /// Look for its file.
    File,
    /// Run the command and read its answer.
    Command(Vec<String>),
    /// Look for `category`'s package directories named after `name`.
    Portage(String, String),
    /// Look for the package in the Slackware package list directory.
    Slackware,
    /// No way to tell.
    Unknown,
}

/// Which check applies to a result.
pub open spec fn presence_kind(item: Match) -> int {
    if file_backed(item.backend@) {
        1
    } else if version_checked(item.backend@) {
        0
    } else if item.backend@ == "Slackware"@ {
        4
    } else if item.backend@ == "Portage"@ {
        if first_index(item.id@, '/') < item.id@.len() {
            3
        } else {
            5
        }
    } else if presence_command_spec(item) is Some {
        2
    } else {
        5
    }
}

pub fn presence_check(item: &Match) -> (r: PresenceCheck)
    ensures
        match r {
            PresenceCheck::Version => presence_kind(*item) == 0,
            PresenceCheck::File => presence_kind(*item) == 1,
            PresenceCheck::Command(v) => presence_kind(*item) == 2 && presence_command_spec(*item)
                == Some(texts(v@)),
            PresenceCheck::Portage(c, n) => presence_kind(*item) == 3 && c@ == item.id@.take(
                first_index(item.id@, '/'),
            ) && n@ == item.id@.skip(first_index(item.id@, '/') + 1),
            PresenceCheck::Slackware => presence_kind(*item) == 4,
            PresenceCheck::Unknown => presence_kind(*item) == 5,
        },
{
    let b = item.backend.as_str();
    let id = item.id.as_str();
    if file_backed_exec(b) {
        return PresenceCheck::File;
    }
    if str_eq(b, "Flatpak") || str_eq(b, "APT") || is_rpm_family(b) || str_eq(b, "Pacman")
        || str_eq(b, "APK") || str_eq(b, "XBPS") || str_eq(b, "Snap") || str_eq(b, "Homebrew")
        || str_eq(b, "Homebrew Cask") || str_eq(b, "Cargo") {
        return PresenceCheck::Version;
    }
    if str_eq(b, "Slackware") {
        return PresenceCheck::Slackware;
    }
    if str_eq(b, "Portage") {
        let cs = chars_of(id);
        let at = find_char(&cs, '/');
        proof {
            lemma_first_index(cs@, '/');
        }
        if at < cs.len() {
            let category = slice_chars(&cs, 0, at);
            let name = slice_chars(&cs, at + 1, cs.len());
            assert(category@ =~= item.id@.take(at as int));
            assert(name@ =~= item.id@.skip(at + 1));
            return PresenceCheck::Portage(string_of(&category), string_of(&name));
        }
        return PresenceCheck::Unknown;
    }
    let command = if str_eq(b, "OPKG") {
        v3("opkg", "status", id)
    } else if str_eq(b, "Eopkg") {
        v4("eopkg", "info", "--installed", id)
    } else if str_eq(b, "Swupd") {
        v4("swupd", "bundle-list", "--status", "--quiet")
    } else if str_eq(b, "Swupd 3rd-party") {
        v5("swupd", "3rd-party", "bundle-list", "--repo", item.origin.as_str())
    } else if str_eq(b, "Pipx") {
        if str_eq(item.scope.as_str(), "system") {
            v4("pipx", "list", "--json", "--global")
        } else {
            v3("pipx", "list", "--json")
        }
    } else if str_eq(b, "UV Tool") {
        v3("uv", "tool", "list")
    } else if str_eq(b, "NPM") {
        v5("npm", "list", "--global", "--depth=0", "--json")
    } else if str_eq(b, "Nix") {
        let c = v4("nix", "profile", "list", "--json");
        if item.profile.as_str().is_empty() {
            c
        } else {
            push_word(push_word(c, "--profile"), item.profile.as_str())
        }
    } else if str_eq(b, "Nix Legacy") {
        v3("nix-env", "--query", "--installed")
    } else if str_eq(b, "Guix") {
        let mut profile = owned("--profile=");
        push_str(&mut profile, item.profile.as_str());
        push_word(v4("guix", "package", profile.as_str(), "--list-installed"), id)
    } else if str_eq(b, "Conda") || str_eq(b, "Micromamba") {
        let program = if str_eq(b, "Conda") {
            "conda"
        } else {
            "micromamba"
        };
        push_word(v5(program, "list", "--json", "--prefix", item.profile.as_str()), id)
    } else {
        return PresenceCheck::Unknown;
    };
    PresenceCheck::Command(command)
}

fn file_backed_exec(b: &str) -> (r: bool)
    ensures
        r == file_backed(b@),
{
    str_eq(b, "AppImage") || str_eq(b, "Standalone") || str_eq(b, "Gear Lever")
}

/// A name followed by `-` and a numeric character: a versioned package
/// directory or entry.
pub open spec fn versioned_entry(entry: Seq<char>, name: Seq<char>) -> bool {
    let prefix = name + seq!['-'];
    prefix.is_prefix_of(entry) && entry.len() > prefix.len() && crate::text::unicode_numeric(
        entry[prefix.len() as int],
    )
}

fn versioned_entry_exec(entry: &Vec<char>, prefix: &Vec<char>) -> (r: bool)
    ensures
        r == (prefix@.is_prefix_of(entry@) && entry@.len() > prefix@.len()
            && crate::text::unicode_numeric(entry@[prefix@.len() as int])),
{
    starts_with_chars(entry, prefix) && entry.len() > prefix.len() && crate::text::is_numeric(
        entry[prefix.len()],
    )
}

/// Whether a Portage category directory holds the package.
pub open spec fn portage_present_spec(entries: Seq<Seq<char>>, name: Seq<char>) -> bool {
    exists|i: int|
        0 <= i < entries.len() && (#[trigger] entries[i] == name || versioned_entry(entries[i], name))
}

pub fn portage_present(entries: &Vec<String>, name: &str) -> (r: bool)
    ensures
        r == portage_present_spec(texts(entries@), name@),
{
    let prefix = join_dash(name, "-");
    let n = chars_of(name);
    proof {
        reveal_strlit("-");
        assert("-"@ =~= seq!['-']);
    }
    for i in 0..entries.len()
        invariant
            prefix@ == name@ + seq!['-'],
            n@ == name@,
            forall|j: int|
                0 <= j < i ==> !(#[trigger] texts(entries@)[j] == name@ || versioned_entry(
                    texts(entries@)[j],
                    name@,
                )),
    {
        assert(texts(entries@)[i as int] == entries@[i as int]@);
        let e = chars_of(entries[i].as_str());
        if chars_eq(&e, &n) || versioned_entry_exec(&e, &prefix) {
            return true;
        }
    }
    false
}

/// Whether the Slackware package list directory holds the package.
pub open spec fn slackware_present_spec(entries: Seq<Seq<char>>, id: Seq<char>) -> bool {
    exists|i: int| 0 <= i < entries.len() && versioned_entry(#[trigger] entries[i], id)
}

pub fn slackware_present(entries: &Vec<String>, id: &str) -> (r: bool)
    ensures
        r == slackware_present_spec(texts(entries@), id@),
{
    let prefix = join_dash(id, "-");
    proof {
        reveal_strlit("-");
        assert("-"@ =~= seq!['-']);
    }
    for i in 0..entries.len()
        invariant
            prefix@ == id@ + seq!['-'],
            forall|j: int| 0 <= j < i ==> !versioned_entry(#[trigger] texts(entries@)[j], id@),
    {
        assert(texts(entries@)[i as int] == entries@[i as int]@);
        let e = chars_of(entries[i].as_str());
        if versioned_entry_exec(&e, &prefix) {
            return true;
        }
    }
    false
}

pub open spec fn some_line(lines: Seq<Seq<char>>, p: spec_fn(Seq<char>) -> bool) -> bool {
    exists|i: int| 0 <= i < lines.len() && p(#[trigger] lines[i])
}

/// `name: status` with the name and an installed status.
pub open spec fn swupd_line(id: Seq<char>) -> spec_fn(Seq<char>) -> bool {
    |line: Seq<char>| {
        let at = first_index(line, ':');
        at < line.len() && trim_spec(line.take(at)) == id && crate::text::contains_seq(
            crate::lines::ascii_lower_seq(line.skip(at + 1)),
            "installed"@,
        )
    }
}

pub open spec fn first_word_is(id: Seq<char>) -> spec_fn(Seq<char>) -> bool {
    |line: Seq<char>| words_spec(line).len() > 0 && words_spec(line)[0] == id
}

pub open spec fn unindented_first_word_is(id: Seq<char>) -> spec_fn(Seq<char>) -> bool {
    |line: Seq<char>|
        !(line.len() > 0 && crate::text::is_space_char(line[0])) && words_spec(line).len() > 0
            && words_spec(line)[0] == id
}

pub open spec fn nix_legacy_line(id: Seq<char>) -> spec_fn(Seq<char>) -> bool {
    |line: Seq<char>| line == id || versioned_entry(line, id)
}

pub open spec fn contains_text(v: Option<Seq<Seq<char>>>, s: Seq<char>) -> bool {
    match v {
        Some(keys) => keys.contains(s),
        None => false,
    }
}

pub open spec fn names_contain(v: Option<Seq<Option<Seq<char>>>>, s: Seq<char>) -> bool {
    match v {
        Some(names) => names.contains(Some(s)),
        None => false,
    }
}

/// What a manager's answer says of whether the result is installed.
pub open spec fn presence_found(item: Match, out: Seq<char>) -> bool {
    let b = item.backend@;
    let id = item.id@;
    let lower = crate::lines::ascii_lower_seq(out);
    if b == "OPKG"@ {
        crate::text::contains_seq(lower, "status: install"@) && crate::text::contains_seq(
            lower,
            "installed"@,
        )
    } else if b == "Swupd"@ {
        some_line(lines_spec(out), swupd_line(id))
    } else if b == "Swupd 3rd-party"@ {
        some_line(lines_spec(out), first_word_is(id))
    } else if b == "Pipx"@ {
        contains_text(crate::matching::json_field_keys(out, "venvs"@), id)
    } else if b == "UV Tool"@ {
        some_line(lines_spec(out), unindented_first_word_is(id))
    } else if b == "NPM"@ {
        contains_text(crate::matching::json_field_keys(out, "dependencies"@), id)
    } else if b == "Nix"@ {
        if crate::matching::json_has_field(out, "elements"@) {
            contains_text(crate::matching::json_field_keys(out, "elements"@), id)
        } else {
            contains_text(crate::matching::json_root_keys(out), id)
        }
    } else if b == "Nix Legacy"@ {
        some_line(lines_spec(out), nix_legacy_line(id))
    } else if b == "Conda"@ || b == "Micromamba"@ {
        names_contain(crate::matching::json_array_names(out), id)
    } else {
        true
    }
}

/// Whether a result is installed, from the answer to its presence
/// command: unknown when the command did not complete.
pub open spec fn presence_answer_spec(item: Match, completed: bool, ok: bool, out: Seq<char>) -> Option<bool> {
    if completed {
        Some(ok && presence_found(item, out))
    } else {
        None
    }
}

fn any_line(lines: &Vec<Vec<char>>, item: &Match, kind: u8) -> (r: bool)
    requires
        kind <= 3,
    ensures
        r == some_line(
            deep(lines@),
            if kind == 0 {
                swupd_line(item.id@)
            } else if kind == 1 {
                first_word_is(item.id@)
            } else if kind == 2 {
                unindented_first_word_is(item.id@)
            } else {
                nix_legacy_line(item.id@)
            },
        ),
{
    let ghost p = if kind == 0 {
        swupd_line(item.id@)
    } else if kind == 1 {
        first_word_is(item.id@)
    } else if kind == 2 {
        unindented_first_word_is(item.id@)
    } else {
        nix_legacy_line(item.id@)
    };
    let id = chars_of(item.id.as_str());
    let prefix = join_dash(item.id.as_str(), "-");
    let installed = chars_of("installed");
    proof {
        reveal_strlit("-");
        assert("-"@ =~= seq!['-']);
    }
    for i in 0..lines.len()
        invariant
            kind <= 3,
            id@ == item.id@,
            prefix@ == item.id@ + seq!['-'],
            installed@ == "installed"@,
            p == (if kind == 0 {
                swupd_line(item.id@)
            } else if kind == 1 {
                first_word_is(item.id@)
            } else if kind == 2 {
                unindented_first_word_is(item.id@)
            } else {
                nix_legacy_line(item.id@)
            }),
            forall|j: int| 0 <= j < i ==> !p(#[trigger] deep(lines@)[j]),
    {
        let line = &lines[i];
        assert(deep(lines@)[i as int] == line@);
        let hit = if kind == 0 {
            let at = find_char(line, ':');
            proof {
                lemma_first_index(line@, ':');
            }
            if at < line.len() {
                let name = slice_chars(line, 0, at);
                let status = slice_chars(line, at + 1, line.len());
                assert(name@ =~= line@.take(at as int));
                assert(status@ =~= line@.skip(at + 1));
                chars_eq(&trim_chars(&name), &id) && crate::text::contains_chars(
                    &crate::lines::ascii_lower_chars(&status),
                    &installed,
                )
            } else {
                false
            }
        } else if kind == 3 {
            chars_eq(line, &id) || versioned_entry_exec(line, &prefix)
        } else {
            let words = words_of(line);
            let first_ok = words.len() > 0 && chars_eq(&words[0], &id);
            if words.len() > 0 {
                assert(deep(words@)[0] == words@[0]@);
            }
            if kind == 1 {
                first_ok
            } else {
                !(line.len() > 0 && crate::text::is_space(line[0])) && first_ok
            }
        };
        if hit {
            return true;
        }
    }
    false
}

fn list_has(k: &Vec<String>, id: &str) -> (r: bool)
    ensures
        r == texts(k@).contains(id@),
{
    for i in 0..k.len()
        invariant
            forall|j: int| 0 <= j < i ==> texts(k@)[j] != id@,
    {
        assert(texts(k@)[i as int] == k@[i as int]@);
        if str_eq(k[i].as_str(), id) {
            return true;
        }
    }
    false
}

fn keys_contain(keys: &Option<Vec<String>>, id: &str) -> (r: bool)
    ensures
        r == contains_text(
            match keys {
                Some(k) => Some(texts(k@)),
                None => None,
            },
            id@,
        ),
{
    match keys {
        Some(k) => list_has(k, id),
        None => false,
    }
}

/// Reads a manager's answer to the presence command.
pub fn presence_answer(item: &Match, completed: bool, ok: bool, out: &str) -> (r: Option<bool>)
    ensures
        r == presence_answer_spec(*item, completed, ok, out@),
{
    if !completed {
        return None;
    }
    if !ok {
        return Some(false);
    }
    let b = item.backend.as_str();
    let id = item.id.as_str();
    let text = chars_of(out);
    let found = if str_eq(b, "OPKG") {
        let lower = crate::lines::ascii_lower_chars(&text);
        crate::text::contains_chars(&lower, &chars_of("status: install"))
            && crate::text::contains_chars(&lower, &chars_of("installed"))
    } else if str_eq(b, "Swupd") {
        any_line(&lines_of(&text), item, 0)
    } else if str_eq(b, "Swupd 3rd-party") {
        any_line(&lines_of(&text), item, 1)
    } else if str_eq(b, "Pipx") {
        keys_contain(&crate::matching::field_keys(out, "venvs"), id)
    } else if str_eq(b, "UV Tool") {
        any_line(&lines_of(&text), item, 2)
    } else if str_eq(b, "NPM") {
        keys_contain(&crate::matching::field_keys(out, "dependencies"), id)
    } else if str_eq(b, "Nix") {
        if crate::matching::has_field(out, "elements") {
            keys_contain(&crate::matching::field_keys(out, "elements"), id)
        } else {
            keys_contain(&crate::matching::root_keys(out), id)
        }
    } else if str_eq(b, "Nix Legacy") {
        any_line(&lines_of(&text), item, 3)
    } else if str_eq(b, "Conda") || str_eq(b, "Micromamba") {
        match crate::matching::array_names(out) {
            Some(names) => {
                let ghost nv = names@.map_values(|o: Option<String>| opt_texts_of(o));
                let mut hit = false;
                for i in 0..names.len()
                    invariant
                        nv == names@.map_values(|o: Option<String>| opt_texts_of(o)),
                        hit <==> exists|j: int| 0 <= j < i && nv[j] == Some(id@),
                {
                    assert(nv[i as int] == opt_texts_of(names@[i as int]));
                    match &names[i] {
                        Some(n) => {
                            if str_eq(n.as_str(), id) {
                                hit = true;
                            }
                        },
                        None => {},
                    }
                }
                hit
            },
            None => false,
        }
    } else {
        true
    };
    Some(found)
}

} // verus!
