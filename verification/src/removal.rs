//! Removal commands: which program each backend is removed with, when a
//! privilege helper is put in front, how selections are grouped into
//! batches, and how a confirmed exact plan is made non-interactive.
use crate::model::{key_spec, nul, texts, Match, RemovalBatch};
use crate::text::{
    chars_eq, chars_lt, chars_of, compare_chars, copy_chars, lemma_chars_lt_irreflexive_asymmetric,
    lemma_chars_lt_transitive, owned, push_char, push_str, str_eq,
};
use crate::sorting::{sorted_distinct, strictly_sorted};
use crate::platform::{opt_view, rpm_manager, rpm_manager_spec, PlatformFacts};
use crate::paths::{same_path, same_path_exec};
use crate::util::{deep, file_name, file_name_spec, views};
use vstd::prelude::*;

verus! {

/// What the removal rules need to know about the running system.
pub struct RemovalEnv {
    /// The effective user is root.
    pub is_root: bool,
    /// `sudo` is on `PATH`.
    pub has_sudo: bool,
    /// `doas` is on `PATH`.
    pub has_doas: bool,
    /// `pkexec` is on `PATH`.
    pub has_pkexec: bool,
    /// The DNF front end that is installed (`dnf5`, `dnf` or `microdnf`).
    pub dnf_binary: Option<String>,
    /// The system is a transactional SUSE system with `transactional-update`.
    pub transactional: bool,
    /// `gearlever` is on `PATH`.
    pub has_gearlever: bool,
    /// `gearlever-cli` is on `PATH`.
    pub has_gearlever_cli: bool,
    /// `flatpak` is on `PATH`.
    pub has_flatpak: bool,
}

/// What was observed about the directory holding a file to delete directly.
pub struct TargetAccess {
    /// The parent directory, when the path has one.
    pub parent: Option<String>,
    /// The current user may write to the parent directory.
    pub writable: bool,
    /// Why the parent could not be inspected, when it could not.
    pub inspect_error: Option<String>,
    /// Owner of the parent directory.
    pub parent_uid: u32,
    /// Permission bits of the parent directory.
    pub parent_mode: u32,
}

/// What was observed about an item's files, for direct file removal.
pub struct FileFacts {
    /// An AppImage's exposed command resolves to its file.
    pub exposed_same_file: bool,
    /// The directory of the item's own file.
    pub source: TargetAccess,
    /// The directory of the exposed command.
    pub exposed: TargetAccess,
}

pub open spec fn res_view(r: Result<Vec<String>, String>) -> Result<Seq<Seq<char>>, Seq<char>> {
    match r {
        Ok(v) => Ok(texts(v@)),
        Err(e) => Err(e@),
    }
}

pub proof fn lemma_texts_push(v: Seq<String>, x: String)
    ensures
        texts(v.push(x)) == texts(v).push(x@),
{
    assert(texts(v.push(x)) =~= texts(v).push(x@));
}

pub proof fn lemma_texts_add(v: Seq<String>, w: Seq<String>)
    ensures
        texts(v + w) == texts(v) + texts(w),
{
    assert(texts(v + w) =~= texts(v) + texts(w));
}

pub(crate) fn v1(a: &str) -> (r: Vec<String>)
    ensures
        texts(r@) == seq![a@],
{
    let mut r = Vec::new();
    r.push(owned(a));
    assert(texts(r@) =~= seq![a@]);
    r
}

pub(crate) fn v2(a: &str, b: &str) -> (r: Vec<String>)
    ensures
        texts(r@) == seq![a@, b@],
{
    let mut r = Vec::new();
    r.push(owned(a));
    r.push(owned(b));
    assert(texts(r@) =~= seq![a@, b@]);
    r
}

pub(crate) fn v3(a: &str, b: &str, c: &str) -> (r: Vec<String>)
    ensures
        texts(r@) == seq![a@, b@, c@],
{
    let mut r = Vec::new();
    r.push(owned(a));
    r.push(owned(b));
    r.push(owned(c));
    assert(texts(r@) =~= seq![a@, b@, c@]);
    r
}

pub(crate) fn v4(a: &str, b: &str, c: &str, d: &str) -> (r: Vec<String>)
    ensures
        texts(r@) == seq![a@, b@, c@, d@],
{
    let mut r = Vec::new();
    r.push(owned(a));
    r.push(owned(b));
    r.push(owned(c));
    r.push(owned(d));
    assert(texts(r@) =~= seq![a@, b@, c@, d@]);
    r
}

/// Appends an owned copy of a string to a command.
pub(crate) fn push_word(mut command: Vec<String>, w: &str) -> (r: Vec<String>)
    ensures
        texts(r@) == texts(command@).push(w@),
{
    let ghost before = command@;
    command.push(owned(w));
    proof {
        lemma_texts_push(before, command@.last());
    }
    command
}

fn push_id(command: Vec<String>, id: &String) -> (r: Vec<String>)
    ensures
        texts(r@) == texts(command@).push(id@),
{
    push_word(command, id.as_str())
}

pub(crate) fn v5(a: &str, b: &str, c: &str, d: &str, e: &str) -> (r: Vec<String>)
    ensures
        texts(r@) == seq![a@, b@, c@, d@, e@],
{
    let mut r = Vec::new();
    r.push(owned(a));
    r.push(owned(b));
    r.push(owned(c));
    r.push(owned(d));
    r.push(owned(e));
    assert(texts(r@) =~= seq![a@, b@, c@, d@, e@]);
    r
}

pub(crate) fn words(parts: &[&str]) -> (r: Vec<String>)
    ensures
        texts(r@) == views(parts@),
        r@.len() == parts@.len(),
        forall|i: int| 0 <= i < parts@.len() ==> #[trigger] r@[i]@ == parts@[i]@,
{
    let mut out: Vec<String> = Vec::new();
    let mut i: usize = 0;
    while i < parts.len()
        invariant
            i <= parts@.len(),
            texts(out@) == views(parts@.take(i as int)),
            out@.len() == i,
            forall|j: int| 0 <= j < i ==> #[trigger] out@[j]@ == parts@[j]@,
        decreases parts@.len() - i,
    {
        let ghost before = out@;
        out.push(owned(parts[i]));
        proof {
            lemma_texts_push(before, out@[i as int]);
            assert(views(parts@.take(i + 1)) =~= views(parts@.take(i as int)).push(parts@[i as int]@));
        }
        i = i + 1;
    }
    assert(parts@.take(parts@.len() as int) =~= parts@);
    out
}

pub open spec fn no_privilege_message() -> Seq<char> {
    "this operation needs root privileges, but sudo, doas, and pkexec are unavailable"@
}

/// A command run as root: unchanged for root, otherwise behind the first
/// available helper of sudo (with `--`), doas and pkexec.
pub open spec fn privilege_spec(cmd: Seq<Seq<char>>, env: RemovalEnv) -> Result<
    Seq<Seq<char>>,
    Seq<char>,
> {
    if env.is_root {
        Ok(cmd)
    } else if env.has_sudo {
        Ok(seq!["sudo"@, "--"@] + cmd)
    } else if env.has_doas {
        Ok(seq!["doas"@] + cmd)
    } else if env.has_pkexec {
        Ok(seq!["pkexec"@] + cmd)
    } else {
        Err(no_privilege_message())
    }
}

/// Puts the first available privilege helper in front of a command unless
/// the user is already root.
pub fn privilege(command: Vec<String>, env: &RemovalEnv) -> (r: Result<Vec<String>, String>)
    ensures
        res_view(r) == privilege_spec(texts(command@), *env),
{
    if env.is_root {
        return Ok(command);
    }
    let mut elevated: Vec<String>;
    if env.has_sudo {
        elevated = v2("sudo", "--");
    } else if env.has_doas {
        elevated = v1("doas");
    } else if env.has_pkexec {
        elevated = v1("pkexec");
    } else {
        return Err(owned(
            "this operation needs root privileges, but sudo, doas, and pkexec are unavailable",
        ));
    }
    let ghost front = elevated@;
    let mut rest = command;
    let ghost whole = rest@;
    elevated.append(&mut rest);
    proof {
        lemma_texts_add(front, whole);
    }
    Ok(elevated)
}

/// The Flatpak removal command: the item's own installation (user, named or
/// system) and, on request, its sandbox data.
pub open spec fn flatpak_spec(item: Match, remove_data: bool) -> Seq<Seq<char>> {
    let location = if item.scope@ == "user"@ {
        "--user"@
    } else if item.installation@.len() > 0 && item.installation@ != "default"@ {
        "--installation="@ + item.installation@
    } else {
        "--system"@
    };
    let base = seq!["flatpak"@, "uninstall"@, "-y"@, location];
    (if remove_data {
        base.push("--delete-data"@)
    } else {
        base
    }).push(item.id@)
}

fn flatpak_args(item: &Match, remove_data: bool) -> (r: Vec<String>)
    ensures
        texts(r@) == flatpak_spec(*item, remove_data),
{
    let command = v3("flatpak", "uninstall", "-y");
    let command = if str_eq(item.scope.as_str(), "user") {
        push_word(command, "--user")
    } else if !item.installation.as_str().is_empty() && !str_eq(
        item.installation.as_str(),
        "default",
    ) {
        let mut option = owned("--installation=");
        push_str(&mut option, item.installation.as_str());
        push_word(command, option.as_str())
    } else {
        push_word(command, "--system")
    };
    let command = if remove_data {
        push_word(command, "--delete-data")
    } else {
        command
    };
    push_id(command, &item.id)
}

pub open spec fn untrusted_message(parent: Seq<char>) -> Seq<char> {
    "refusing privileged direct deletion through untrusted directory "@ + parent
}

pub open spec fn no_parent_message() -> Seq<char> {
    "a direct-removal target has no parent directory"@
}

/// Whether deleting files directly needs root: targets whose directory is
/// writable need nothing; others need a directory owned by root and not
/// writable by group or others, and then make the command privileged.
pub open spec fn direct_check(targets: Seq<TargetAccess>) -> Result<bool, Seq<char>>
    decreases targets.len(),
{
    if targets.len() == 0 {
        Ok(false)
    } else {
        let t = targets[0];
        match t.parent {
            None => Err(no_parent_message()),
            Some(p) => if t.writable {
                direct_check(targets.drop_first())
            } else {
                match t.inspect_error {
                    Some(e) => Err("cannot inspect "@ + p@ + ": "@ + e@),
                    None => if t.parent_uid != 0 || (t.parent_mode & 0o22u32) != 0 {
                        Err(untrusted_message(p@))
                    } else {
                        match direct_check(targets.drop_first()) {
                            Ok(_) => Ok(true),
                            Err(e) => Err(e),
                        }
                    },
                }
            },
        }
    }
}

pub open spec fn direct_spec(
    cmd: Seq<Seq<char>>,
    targets: Seq<TargetAccess>,
    env: RemovalEnv,
) -> Result<Seq<Seq<char>>, Seq<char>> {
    match direct_check(targets) {
        Err(e) => Err(e),
        Ok(needs) => if needs {
            privilege_spec(cmd, env)
        } else {
            Ok(cmd)
        },
    }
}

fn check_target(t: &TargetAccess) -> (r: Result<bool, String>)
    ensures
        match r {
            Ok(needs) => direct_check(seq![*t]) == Ok::<bool, Seq<char>>(needs),
            Err(e) => direct_check(seq![*t]) == Err::<bool, Seq<char>>(e@),
        },
{
    assert(seq![*t].drop_first() =~= Seq::<TargetAccess>::empty());
    assert(direct_check(Seq::<TargetAccess>::empty()) == Ok::<bool, Seq<char>>(false));
    match &t.parent {
        None => Err(owned("a direct-removal target has no parent directory")),
        Some(p) => {
            if t.writable {
                Ok(false)
            } else {
                match &t.inspect_error {
                    Some(e) => {
                        let mut message = owned("cannot inspect ");
                        push_str(&mut message, p.as_str());
                        push_str(&mut message, ": ");
                        push_str(&mut message, e.as_str());
                        Err(message)
                    },
                    None => {
                        if t.parent_uid != 0 || (t.parent_mode & 0o22u32) != 0 {
                            let mut message = owned(
                                "refusing privileged direct deletion through untrusted directory ",
                            );
                            push_str(&mut message, p.as_str());
                            Err(message)
                        } else {
                            Ok(true)
                        }
                    },
                }
            }
        },
    }
}

proof fn lemma_direct_check_two(a: TargetAccess, b: TargetAccess)
    ensures
        direct_check(seq![a, b]) == (match direct_check(seq![a]) {
            Err(e) => Err(e),
            Ok(x) => match direct_check(seq![b]) {
                Err(e) => Err(e),
                Ok(y) => Ok(x || y),
            },
        }),
{
    assert(seq![a, b].drop_first() =~= seq![b]);
    assert(seq![a].drop_first() =~= Seq::<TargetAccess>::empty());
    assert(seq![b].drop_first() =~= Seq::<TargetAccess>::empty());
    assert(direct_check(Seq::<TargetAccess>::empty()) == Ok::<bool, Seq<char>>(false));
    assert(seq![a, b][0] == a);
    assert(seq![b][0] == b);
    assert(seq![a][0] == a);
}

/// A direct file deletion, privileged only when a target's directory is
/// not writable by the user, and refused when such a directory is not
/// trusted.
fn direct_file_command(command: Vec<String>, targets: &[&TargetAccess], env: &RemovalEnv) -> (r:
    Result<Vec<String>, String>)
    requires
        1 <= targets@.len() <= 2,
    ensures
        res_view(r) == direct_spec(
            texts(command@),
            targets@.map_values(|t: &TargetAccess| *t),
            *env,
        ),
{
    let ghost ts = targets@.map_values(|t: &TargetAccess| *t);
    let first = check_target(targets[0]);
    let needs = match first {
        Err(e) => {
            proof {
                if targets@.len() == 2 {
                    assert(ts =~= seq![*targets@[0], *targets@[1]]);
                    lemma_direct_check_two(*targets@[0], *targets@[1]);
                } else {
                    assert(ts =~= seq![*targets@[0]]);
                }
            }
            return Err(e);
        },
        Ok(n) => n,
    };
    let mut needs_all = needs;
    if targets.len() == 2 {
        let second = check_target(targets[1]);
        proof {
            assert(ts =~= seq![*targets@[0], *targets@[1]]);
            lemma_direct_check_two(*targets@[0], *targets@[1]);
        }
        match second {
            Err(e) => {
                return Err(e);
            },
            Ok(n) => {
                needs_all = needs || n;
            },
        }
    } else {
        assert(ts =~= seq![*targets@[0]]);
    }
    if needs_all {
        privilege(command, env)
    } else {
        Ok(command)
    }
}

pub open spec fn gear_lever_launcher(env: RemovalEnv) -> Option<Seq<Seq<char>>> {
    if env.has_gearlever {
        Some(seq!["gearlever"@])
    } else if env.has_gearlever_cli {
        Some(seq!["gearlever-cli"@])
    } else if env.has_flatpak {
        Some(seq!["flatpak"@, "run"@, "it.mijorus.gearlever"@])
    } else {
        None
    }
}

/// A command with one optional flag before its last argument.
pub open spec fn with_flag(base: Seq<Seq<char>>, on: bool, flag: Seq<char>, last: Seq<char>) -> Seq<
    Seq<char>,
> {
    (if on {
        base.push(flag)
    } else {
        base
    }).push(last)
}

/// Native system managers that are always removed as root.
pub open spec fn system_manager(b: Seq<char>) -> bool {
    b == "Snap"@ || b == "APT"@ || b == "APT-RPM"@ || b == "DNF"@ || b == "YUM"@ || b == "RPM"@
        || b == "RPM-OSTree"@ || b == "Zypper"@ || b == "URPMI"@
}

/// Further native managers (Portage may run in a user prefix).
pub open spec fn native_manager(b: Seq<char>) -> bool {
    b == "Pacman"@ || b == "APK"@ || b == "OPKG"@ || b == "XBPS"@ || b == "Portage"@ || b
        == "Slackware"@ || b == "Eopkg"@ || b == "Swupd"@ || b == "Swupd 3rd-party"@
}

/// Per-user and language tool managers.
pub open spec fn tool_manager(b: Seq<char>) -> bool {
    b == "Homebrew"@ || b == "Homebrew Cask"@ || b == "Cargo"@ || b == "Pipx"@ || b == "UV Tool"@
        || b == "NPM"@ || b == "Nix"@ || b == "Nix Legacy"@ || b == "Guix"@ || b == "Conda"@ || b
        == "Micromamba"@
}

pub open spec fn system_manager_spec(item: Match, cleanup: bool, env: RemovalEnv) -> Result<
    Seq<Seq<char>>,
    Seq<char>,
> {
    let b = item.backend@;
    let id = item.id@;
    if b == "Snap"@ {
        privilege_spec(with_flag(seq!["snap"@, "remove"@], cleanup, "--purge"@, id), env)
    } else if b == "APT"@ {
        privilege_spec(
            seq![
                "apt-get"@,
                if cleanup {
                    "purge"@
                } else {
                    "remove"@
                },
                id,
            ],
            env,
        )
    } else if b == "APT-RPM"@ {
        privilege_spec(seq!["apt-get"@, "remove"@, id], env)
    } else if b == "DNF"@ {
        privilege_spec(
            seq![
                match env.dnf_binary {
                    Some(d) => d@,
                    None => "dnf"@,
                },
                "remove"@,
                id,
            ],
            env,
        )
    } else if b == "YUM"@ {
        privilege_spec(seq!["yum"@, "remove"@, id], env)
    } else if b == "RPM"@ {
        privilege_spec(seq!["rpm"@, "-e"@, id], env)
    } else if b == "RPM-OSTree"@ {
        privilege_spec(seq!["rpm-ostree"@, "uninstall"@, id], env)
    } else if b == "Zypper"@ {
        if env.transactional {
            privilege_spec(
                seq!["transactional-update"@, "--non-interactive"@, "pkg"@, "remove"@, id],
                env,
            )
        } else {
            privilege_spec(seq!["zypper"@, "--non-interactive"@, "remove"@, id], env)
        }
    } else {
        privilege_spec(seq!["urpme"@, "--auto"@, id], env)
    }
}

/// The exact Portage atom of an item: `=id` or `=id-version`.
pub(crate) fn portage_atom_of(item: &Match) -> (r: String)
    ensures
        r@ == portage_atom(*item),
{
    let mut atom = owned("=");
    push_str(&mut atom, item.id.as_str());
    if !item.version.as_str().is_empty() {
        push_str(&mut atom, "-");
        push_str(&mut atom, item.version.as_str());
    }
    assert(atom@ =~= portage_atom(*item));
    atom
}

pub open spec fn portage_atom(item: Match) -> Seq<char> {
    if item.version@.len() == 0 {
        "="@ + item.id@
    } else {
        "="@ + item.id@ + "-"@ + item.version@
    }
}

pub open spec fn native_manager_spec(item: Match, cleanup: bool, env: RemovalEnv) -> Result<
    Seq<Seq<char>>,
    Seq<char>,
> {
    let b = item.backend@;
    let id = item.id@;
    if b == "Pacman"@ {
        privilege_spec(seq!["pacman"@, "--noconfirm"@, "-R"@, id], env)
    } else if b == "APK"@ {
        privilege_spec(seq!["apk"@, "del"@, id], env)
    } else if b == "OPKG"@ {
        privilege_spec(seq!["opkg"@, "remove"@, id], env)
    } else if b == "XBPS"@ {
        privilege_spec(seq!["xbps-remove"@, "--recursive"@, "--yes"@, id], env)
    } else if b == "Portage"@ {
        let command = seq!["emerge"@, "--ask=n"@, "--verbose"@, "--depclean"@, portage_atom(item)];
        if item.scope@ == "user"@ {
            Ok(command)
        } else {
            privilege_spec(command, env)
        }
    } else if b == "Slackware"@ {
        privilege_spec(seq!["removepkg"@, id], env)
    } else if b == "Eopkg"@ {
        privilege_spec(
            with_flag(seq!["eopkg"@, "remove"@, "--yes-all"@], cleanup, "--purge"@, id),
            env,
        )
    } else if b == "Swupd"@ {
        privilege_spec(seq!["swupd"@, "bundle-remove"@, id], env)
    } else {
        privilege_spec(
            seq!["swupd"@, "3rd-party"@, "bundle-remove"@, "--repo"@, item.origin@, id],
            env,
        )
    }
}

pub open spec fn tool_manager_spec(item: Match, cleanup: bool, env: RemovalEnv) -> Result<
    Seq<Seq<char>>,
    Seq<char>,
> {
    let b = item.backend@;
    let id = item.id@;
    if b == "Homebrew"@ {
        Ok(seq!["brew"@, "uninstall"@, id])
    } else if b == "Homebrew Cask"@ {
        Ok(with_flag(seq!["brew"@, "uninstall"@, "--cask"@], cleanup, "--zap"@, id))
    } else if b == "Cargo"@ {
        Ok(seq!["cargo"@, "uninstall"@, id])
    } else if b == "Pipx"@ {
        let global = item.scope@ == "system"@;
        let command = with_flag(seq!["pipx"@, "uninstall"@], global, "--global"@, id);
        if global {
            privilege_spec(command, env)
        } else {
            Ok(command)
        }
    } else if b == "UV Tool"@ {
        Ok(seq!["uv"@, "tool"@, "uninstall"@, id])
    } else if b == "NPM"@ {
        let command = seq!["npm"@, "uninstall"@, "--global"@, id];
        if item.scope@ == "system"@ {
            privilege_spec(command, env)
        } else {
            Ok(command)
        }
    } else if b == "Nix"@ {
        if item.profile@.len() > 0 {
            Ok(seq!["nix"@, "profile"@, "remove"@, "--profile"@, item.profile@, id])
        } else {
            Ok(seq!["nix"@, "profile"@, "remove"@, id])
        }
    } else if b == "Nix Legacy"@ {
        Ok(seq!["nix-env"@, "--uninstall"@, id])
    } else if b == "Guix"@ {
        Ok(seq!["guix"@, "package"@, "--profile="@ + item.profile@, "--remove="@ + id])
    } else {
        Ok(
            seq![
                if b == "Conda"@ {
                    "conda"@
                } else {
                    "micromamba"@
                },
                "remove"@,
                "--yes"@,
                "--prefix"@,
                item.profile@,
                id,
            ],
        )
    }
}

pub open spec fn file_command_spec(item: Match, env: RemovalEnv, facts: FileFacts) -> Result<
    Seq<Seq<char>>,
    Seq<char>,
> {
    let b = item.backend@;
    if b == "Gear Lever"@ {
        match gear_lever_launcher(env) {
            None => Err("Gear Lever is no longer available"@),
            Some(launcher) => match item.source_path {
                None => Err("Gear Lever did not report a managed path"@),
                Some(path) => Ok(launcher.push("--remove"@).push(path@).push("--yes"@)),
            },
        }
    } else if b == "AppImage"@ {
        match item.source_path {
            None => Err("the AppImage path is unavailable"@),
            Some(path) => match item.command_path {
                Some(exposed) => if !same_path(exposed@, path@) && facts.exposed_same_file {
                    direct_spec(
                        seq!["rm"@, "--"@, path@, exposed@],
                        seq![facts.source, facts.exposed],
                        env,
                    )
                } else {
                    direct_spec(seq!["rm"@, "--"@, path@], seq![facts.source], env)
                },
                None => direct_spec(seq!["rm"@, "--"@, path@], seq![facts.source], env),
            },
        }
    } else if b == "Standalone"@ {
        match item.source_path {
            None => Err("the executable path is unavailable"@),
            Some(path) => direct_spec(seq!["rm"@, "--"@, path@], seq![facts.source], env),
        }
    } else if b == "Container Export"@ {
        Err(
            "remove this application inside its container; the host export is not the application"@,
        )
    } else {
        Err(b + " removal is not supported safely"@)
    }
}

/// The removal command for one item, with its manager's own cleanup when
/// `cleanup` is set, or why it cannot be removed safely: Flatpak keeps its
/// installation, system managers run as root, user tools run as the user
/// (system-wide pipx and npm as root), and files are deleted directly.
pub open spec fn command_spec(item: Match, cleanup: bool, env: RemovalEnv, facts: FileFacts) -> Result<
    Seq<Seq<char>>,
    Seq<char>,
> {
    let b = item.backend@;
    if b == "Flatpak"@ {
        Ok(flatpak_spec(item, cleanup))
    } else if system_manager(b) {
        system_manager_spec(item, cleanup, env)
    } else if native_manager(b) {
        native_manager_spec(item, cleanup, env)
    } else if tool_manager(b) {
        tool_manager_spec(item, cleanup, env)
    } else {
        file_command_spec(item, env, facts)
    }
}

fn opt_flag(command: Vec<String>, on: bool, flag: &str, id: &String) -> (r: Vec<String>)
    ensures
        texts(r@) == with_flag(texts(command@), on, flag@, id@),
{
    let command = if on {
        push_word(command, flag)
    } else {
        command
    };
    push_id(command, id)
}

fn message(text: &str) -> (r: Result<Vec<String>, String>)
    ensures
        res_view(r) == Err::<Seq<Seq<char>>, Seq<char>>(text@),
{
    Err(owned(text))
}

fn is_system_manager(b: &str) -> (r: bool)
    ensures
        r == system_manager(b@),
{
    str_eq(b, "Snap") || str_eq(b, "APT") || str_eq(b, "APT-RPM") || str_eq(b, "DNF") || str_eq(
        b,
        "YUM",
    ) || str_eq(b, "RPM") || str_eq(b, "RPM-OSTree") || str_eq(b, "Zypper") || str_eq(b, "URPMI")
}

fn is_native_manager(b: &str) -> (r: bool)
    ensures
        r == native_manager(b@),
{
    str_eq(b, "Pacman") || str_eq(b, "APK") || str_eq(b, "OPKG") || str_eq(b, "XBPS") || str_eq(
        b,
        "Portage",
    ) || str_eq(b, "Slackware") || str_eq(b, "Eopkg") || str_eq(b, "Swupd") || str_eq(
        b,
        "Swupd 3rd-party",
    )
}

fn is_tool_manager(b: &str) -> (r: bool)
    ensures
        r == tool_manager(b@),
{
    str_eq(b, "Homebrew") || str_eq(b, "Homebrew Cask") || str_eq(b, "Cargo") || str_eq(b, "Pipx")
        || str_eq(b, "UV Tool") || str_eq(b, "NPM") || str_eq(b, "Nix") || str_eq(b, "Nix Legacy")
        || str_eq(b, "Guix") || str_eq(b, "Conda") || str_eq(b, "Micromamba")
}

fn system_manager_command(item: &Match, cleanup: bool, env: &RemovalEnv) -> (r: Result<
    Vec<String>,
    String,
>)
    requires
        system_manager(item.backend@),
    ensures
        res_view(r) == system_manager_spec(*item, cleanup, *env),
{
    let b = item.backend.as_str();
    let id = &item.id;
    if str_eq(b, "Snap") {
        privilege(opt_flag(v2("snap", "remove"), cleanup, "--purge", id), env)
    } else if str_eq(b, "APT") {
        let command = if cleanup {
            v2("apt-get", "purge")
        } else {
            v2("apt-get", "remove")
        };
        let command = push_id(command, id);
        assert(texts(command@) == seq![
            "apt-get"@,
            if cleanup {
                "purge"@
            } else {
                "remove"@
            },
            id@,
        ]);
        privilege(command, env)
    } else if str_eq(b, "APT-RPM") {
        privilege(v3("apt-get", "remove", id.as_str()), env)
    } else if str_eq(b, "DNF") {
        let command = match &env.dnf_binary {
            Some(d) => v2(d.as_str(), "remove"),
            None => v2("dnf", "remove"),
        };
        let command = push_id(command, id);
        assert(texts(command@) == seq![
            match env.dnf_binary {
                Some(d) => d@,
                None => "dnf"@,
            },
            "remove"@,
            id@,
        ]);
        privilege(command, env)
    } else if str_eq(b, "YUM") {
        privilege(v3("yum", "remove", id.as_str()), env)
    } else if str_eq(b, "RPM") {
        privilege(v3("rpm", "-e", id.as_str()), env)
    } else if str_eq(b, "RPM-OSTree") {
        privilege(v3("rpm-ostree", "uninstall", id.as_str()), env)
    } else if str_eq(b, "Zypper") {
        if env.transactional {
            privilege(
                v5("transactional-update", "--non-interactive", "pkg", "remove", id.as_str()),
                env,
            )
        } else {
            privilege(v4("zypper", "--non-interactive", "remove", id.as_str()), env)
        }
    } else {
        privilege(v3("urpme", "--auto", id.as_str()), env)
    }
}

fn native_manager_command(item: &Match, cleanup: bool, env: &RemovalEnv) -> (r: Result<
    Vec<String>,
    String,
>)
    requires
        native_manager(item.backend@),
    ensures
        res_view(r) == native_manager_spec(*item, cleanup, *env),
{
    let b = item.backend.as_str();
    let id = &item.id;
    if str_eq(b, "Pacman") {
        privilege(v4("pacman", "--noconfirm", "-R", id.as_str()), env)
    } else if str_eq(b, "APK") {
        privilege(v3("apk", "del", id.as_str()), env)
    } else if str_eq(b, "OPKG") {
        privilege(v3("opkg", "remove", id.as_str()), env)
    } else if str_eq(b, "XBPS") {
        privilege(v4("xbps-remove", "--recursive", "--yes", id.as_str()), env)
    } else if str_eq(b, "Portage") {
        let atom = portage_atom_of(item);
        let command = v5("emerge", "--ask=n", "--verbose", "--depclean", atom.as_str());
        if str_eq(item.scope.as_str(), "user") {
            Ok(command)
        } else {
            privilege(command, env)
        }
    } else if str_eq(b, "Slackware") {
        privilege(v2("removepkg", id.as_str()), env)
    } else if str_eq(b, "Eopkg") {
        privilege(opt_flag(v3("eopkg", "remove", "--yes-all"), cleanup, "--purge", id), env)
    } else if str_eq(b, "Swupd") {
        privilege(v3("swupd", "bundle-remove", id.as_str()), env)
    } else {
        let command = v5("swupd", "3rd-party", "bundle-remove", "--repo", item.origin.as_str());
        let command = push_id(command, id);
        assert(texts(command@) == seq![
            "swupd"@,
            "3rd-party"@,
            "bundle-remove"@,
            "--repo"@,
            item.origin@,
            id@,
        ]);
        privilege(command, env)
    }
}

fn tool_manager_command(item: &Match, cleanup: bool, env: &RemovalEnv) -> (r: Result<
    Vec<String>,
    String,
>)
    requires
        tool_manager(item.backend@),
    ensures
        res_view(r) == tool_manager_spec(*item, cleanup, *env),
{
    let b = item.backend.as_str();
    let id = &item.id;
    if str_eq(b, "Homebrew") {
        Ok(v3("brew", "uninstall", id.as_str()))
    } else if str_eq(b, "Homebrew Cask") {
        Ok(opt_flag(v3("brew", "uninstall", "--cask"), cleanup, "--zap", id))
    } else if str_eq(b, "Cargo") {
        Ok(v3("cargo", "uninstall", id.as_str()))
    } else if str_eq(b, "Pipx") {
        let global = str_eq(item.scope.as_str(), "system");
        let command = opt_flag(v2("pipx", "uninstall"), global, "--global", id);
        if global {
            privilege(command, env)
        } else {
            Ok(command)
        }
    } else if str_eq(b, "UV Tool") {
        Ok(v4("uv", "tool", "uninstall", id.as_str()))
    } else if str_eq(b, "NPM") {
        let command = v4("npm", "uninstall", "--global", id.as_str());
        if str_eq(item.scope.as_str(), "system") {
            privilege(command, env)
        } else {
            Ok(command)
        }
    } else if str_eq(b, "Nix") {
        let command = v3("nix", "profile", "remove");
        if !item.profile.as_str().is_empty() {
            let command = push_id(push_id(push_word(command, "--profile"), &item.profile), id);
            assert(texts(command@) == seq![
                "nix"@,
                "profile"@,
                "remove"@,
                "--profile"@,
                item.profile@,
                id@,
            ]);
            Ok(command)
        } else {
            Ok(v4("nix", "profile", "remove", id.as_str()))
        }
    } else if str_eq(b, "Nix Legacy") {
        Ok(v3("nix-env", "--uninstall", id.as_str()))
    } else if str_eq(b, "Guix") {
        let mut profile = owned("--profile=");
        push_str(&mut profile, item.profile.as_str());
        let mut remove = owned("--remove=");
        push_str(&mut remove, id.as_str());
        Ok(v4("guix", "package", profile.as_str(), remove.as_str()))
    } else {
        let conda = str_eq(b, "Conda");
        let program = if conda {
            "conda"
        } else {
            "micromamba"
        };
        let command = push_id(v4(program, "remove", "--yes", "--prefix"), &item.profile);
        let command = push_id(command, id);
        assert(texts(command@) == seq![
            if b@ == "Conda"@ {
                "conda"@
            } else {
                "micromamba"@
            },
            "remove"@,
            "--yes"@,
            "--prefix"@,
            item.profile@,
            id@,
        ]);
        Ok(command)
    }
}

fn file_command(item: &Match, env: &RemovalEnv, facts: &FileFacts) -> (r: Result<
    Vec<String>,
    String,
>)
    ensures
        res_view(r) == file_command_spec(*item, *env, *facts),
{
    let b = item.backend.as_str();
    if str_eq(b, "Gear Lever") {
        let command = if env.has_gearlever {
            v1("gearlever")
        } else if env.has_gearlever_cli {
            v1("gearlever-cli")
        } else if env.has_flatpak {
            v3("flatpak", "run", "it.mijorus.gearlever")
        } else {
            return message("Gear Lever is no longer available");
        };
        match &item.source_path {
            None => message("Gear Lever did not report a managed path"),
            Some(path) => {
                assert(gear_lever_launcher(*env) == Some(texts(command@)));
                Ok(push_word(push_id(push_word(command, "--remove"), path), "--yes"))
            },
        }
    } else if str_eq(b, "AppImage") {
        match &item.source_path {
            None => message("the AppImage path is unavailable"),
            Some(path) => {
                let command = v3("rm", "--", path.as_str());
                let single: [&TargetAccess; 1] = [&facts.source];
                assert(single@.map_values(|t: &TargetAccess| *t) =~= seq![facts.source]);
                match &item.command_path {
                    Some(exposed) => {
                        if !same_path_exec(exposed.as_str(), path.as_str())
                            && facts.exposed_same_file {
                            let command = v4("rm", "--", path.as_str(), exposed.as_str());
                            let targets: [&TargetAccess; 2] = [&facts.source, &facts.exposed];
                            assert(targets@.map_values(|t: &TargetAccess| *t) =~= seq![
                                facts.source,
                                facts.exposed,
                            ]);
                            direct_file_command(command, &targets, env)
                        } else {
                            direct_file_command(command, &single, env)
                        }
                    },
                    None => direct_file_command(command, &single, env),
                }
            },
        }
    } else if str_eq(b, "Standalone") {
        match &item.source_path {
            None => message("the executable path is unavailable"),
            Some(path) => {
                let command = v3("rm", "--", path.as_str());
                let single: [&TargetAccess; 1] = [&facts.source];
                assert(single@.map_values(|t: &TargetAccess| *t) =~= seq![facts.source]);
                direct_file_command(command, &single, env)
            },
        }
    } else if str_eq(b, "Container Export") {
        message(
            "remove this application inside its container; the host export is not the application",
        )
    } else {
        let mut text = owned(b);
        push_str(&mut text, " removal is not supported safely");
        Err(text)
    }
}

/// The flag that choosing the manager's own cleanup adds to a removal
/// command, for the managers that add one.
pub open spec fn cleanup_flag(b: Seq<char>) -> Option<Seq<char>> {
    if b == "Flatpak"@ {
        Some("--delete-data"@)
    } else if b == "Snap"@ || b == "Eopkg"@ {
        Some("--purge"@)
    } else if b == "Homebrew Cask"@ {
        Some("--zap"@)
    } else {
        None
    }
}

/// A command with `flag` put just before its last word.
pub open spec fn flag_before_last(v: Seq<Seq<char>>, flag: Seq<char>) -> Seq<Seq<char>> {
    v.drop_last().push(flag).push(v.last())
}

/// Whether two results succeed together and, when they do, the second
/// command is the first with `flag` put just before its last word.
pub open spec fn adds_flag(c0: Result<Seq<Seq<char>>, Seq<char>>, c1: Result<Seq<Seq<char>>, Seq<char>>, flag: Seq<char>) -> bool {
    match c0 {
        Ok(v0) => v0.len() >= 1 && c1 == Ok::<Seq<Seq<char>>, Seq<char>>(flag_before_last(v0, flag)),
        Err(e) => c1 == Err::<Seq<Seq<char>>, Seq<char>>(e),
    }
}

/// Whether two results succeed together and, when they do, the second
/// command is the first with its next-to-last word `remove` made `purge`.
pub open spec fn purges(c0: Result<Seq<Seq<char>>, Seq<char>>, c1: Result<Seq<Seq<char>>, Seq<char>>) -> bool {
    match c0 {
        Ok(v0) => v0.len() >= 2 && v0[v0.len() - 2] == "remove"@ && c1 == Ok::<Seq<Seq<char>>, Seq<char>>(
            v0.update(v0.len() - 2, "purge"@),
        ),
        Err(e) => c1 == Err::<Seq<Seq<char>>, Seq<char>>(e),
    }
}

proof fn lemma_privilege_flag(base: Seq<Seq<char>>, flag: Seq<char>, id: Seq<char>, env: RemovalEnv)
    ensures
        adds_flag(
            privilege_spec(with_flag(base, false, flag, id), env),
            privilege_spec(with_flag(base, true, flag, id), env),
            flag,
        ),
{
    let c0 = base.push(id);
    let c1 = base.push(flag).push(id);
    assert(c1 =~= flag_before_last(c0, flag));
    if !env.is_root {
        assert(seq!["sudo"@, "--"@] + c1 =~= flag_before_last(seq!["sudo"@, "--"@] + c0, flag));
        assert(seq!["doas"@] + c1 =~= flag_before_last(seq!["doas"@] + c0, flag));
        assert(seq!["pkexec"@] + c1 =~= flag_before_last(seq!["pkexec"@] + c0, flag));
    }
}

/// Choosing the manager's own cleanup changes a removal command in one
/// place only: APT purges where it would remove; Flatpak, Snap, Eopkg and
/// Homebrew casks get their cleanup flag just before the package; every
/// other command stays the same. Either choice succeeds exactly when the
/// other does.
pub proof fn cleanup_changes_one_word(item: Match, env: RemovalEnv, facts: FileFacts)
    ensures
        item.backend@ == "APT"@ ==> purges(command_spec(item, false, env, facts), command_spec(item, true, env, facts)),
        cleanup_flag(item.backend@) matches Some(flag) ==> adds_flag(
            command_spec(item, false, env, facts),
            command_spec(item, true, env, facts),
            flag,
        ),
        item.backend@ != "APT"@ && cleanup_flag(item.backend@) is None ==> command_spec(item, true, env, facts)
            == command_spec(item, false, env, facts),
{
    reveal_strlit("Flatpak");
    reveal_strlit("Snap");
    reveal_strlit("APT");
    reveal_strlit("APT-RPM");
    reveal_strlit("DNF");
    reveal_strlit("YUM");
    reveal_strlit("RPM");
    reveal_strlit("RPM-OSTree");
    reveal_strlit("Zypper");
    reveal_strlit("URPMI");
    reveal_strlit("Pacman");
    reveal_strlit("APK");
    reveal_strlit("OPKG");
    reveal_strlit("XBPS");
    reveal_strlit("Portage");
    reveal_strlit("Slackware");
    reveal_strlit("Eopkg");
    reveal_strlit("Swupd");
    reveal_strlit("Swupd 3rd-party");
    reveal_strlit("Homebrew");
    reveal_strlit("Homebrew Cask");
    reveal_strlit("Cargo");
    reveal_strlit("Pipx");
    reveal_strlit("UV Tool");
    reveal_strlit("NPM");
    reveal_strlit("Nix");
    reveal_strlit("Nix Legacy");
    reveal_strlit("Guix");
    reveal_strlit("Conda");
    reveal_strlit("Micromamba");
    let b = item.backend@;
    let id = item.id@;
    if b == "Flatpak"@ {
        let f0 = flatpak_spec(item, false);
        assert(flatpak_spec(item, true) =~= flag_before_last(f0, "--delete-data"@));
        assert(command_spec(item, false, env, facts) == Ok::<Seq<Seq<char>>, Seq<char>>(f0));
        assert(adds_flag(command_spec(item, false, env, facts), command_spec(item, true, env, facts), "--delete-data"@));
    } else if b == "Snap"@ {
        lemma_privilege_flag(seq!["snap"@, "remove"@], "--purge"@, id, env);
        assert(command_spec(item, true, env, facts) == privilege_spec(with_flag(seq!["snap"@, "remove"@], true, "--purge"@, id), env));
        assert(command_spec(item, false, env, facts) == privilege_spec(with_flag(seq!["snap"@, "remove"@], false, "--purge"@, id), env));
    } else if b == "Eopkg"@ {
        lemma_privilege_flag(seq!["eopkg"@, "remove"@, "--yes-all"@], "--purge"@, id, env);
        assert(b != "Flatpak"@);
        assert(!system_manager(b)) by {
            assert(b.len() == 5);
            assert(b[0] == 'E');
        }
        assert(native_manager(b));
        assert(command_spec(item, true, env, facts) == native_manager_spec(item, true, env));
        assert(command_spec(item, false, env, facts) == native_manager_spec(item, false, env));
    } else if b == "Homebrew Cask"@ {
        let c0 = seq!["brew"@, "uninstall"@, "--cask"@].push(id);
        assert(seq!["brew"@, "uninstall"@, "--cask"@].push("--zap"@).push(id) =~= flag_before_last(c0, "--zap"@));
        assert(command_spec(item, true, env, facts) == tool_manager_spec(item, true, env));
        assert(command_spec(item, false, env, facts) == tool_manager_spec(item, false, env));
    } else if b == "APT"@ {
        let c0 = seq!["apt-get"@, "remove"@, id];
        assert(seq!["apt-get"@, "purge"@, id] =~= c0.update(1, "purge"@));
        if !env.is_root {
            assert(seq!["sudo"@, "--"@] + seq!["apt-get"@, "purge"@, id] =~= (seq!["sudo"@, "--"@] + c0).update(3, "purge"@));
            assert(seq!["doas"@] + seq!["apt-get"@, "purge"@, id] =~= (seq!["doas"@] + c0).update(2, "purge"@));
            assert(seq!["pkexec"@] + seq!["apt-get"@, "purge"@, id] =~= (seq!["pkexec"@] + c0).update(2, "purge"@));
        }
    }
}

/// The command that removes `item`, or why it cannot be removed safely.
pub fn command_for(item: &Match, manager_cleanup: bool, env: &RemovalEnv, facts: &FileFacts) -> (r:
    Result<Vec<String>, String>)
    ensures
        res_view(r) == command_spec(*item, manager_cleanup, *env, *facts),
{
    let b = item.backend.as_str();
    if str_eq(b, "Flatpak") {
        Ok(flatpak_args(item, manager_cleanup))
    } else if is_system_manager(b) {
        system_manager_command(item, manager_cleanup, env)
    } else if is_native_manager(b) {
        native_manager_command(item, manager_cleanup, env)
    } else if is_tool_manager(b) {
        tool_manager_command(item, manager_cleanup, env)
    } else {
        file_command(item, env, facts)
    }
}


// ---------------------------------------------------------------------------
// Batches
// ---------------------------------------------------------------------------

/// Managers that remove several packages of one installation in a single
/// transaction.
pub open spec fn batchable(b: Seq<char>) -> bool {
    b == "Flatpak"@ || b == "APT"@ || b == "APT-RPM"@ || b == "DNF"@ || b == "YUM"@ || b
        == "RPM"@ || b == "RPM-OSTree"@ || b == "Zypper"@ || b == "URPMI"@ || b == "Pacman"@ || b
        == "APK"@ || b == "OPKG"@ || b == "XBPS"@ || b == "Slackware"@ || b == "Eopkg"@ || b
        == "Homebrew"@ || b == "Homebrew Cask"@ || b == "NPM"@
}

fn is_batchable(b: &str) -> (r: bool)
    ensures
        r == batchable(b@),
{
    str_eq(b, "Flatpak") || str_eq(b, "APT") || str_eq(b, "APT-RPM") || str_eq(b, "DNF")
        || str_eq(b, "YUM") || str_eq(b, "RPM") || str_eq(b, "RPM-OSTree") || str_eq(b, "Zypper")
        || str_eq(b, "URPMI") || str_eq(b, "Pacman") || str_eq(b, "APK") || str_eq(b, "OPKG")
        || str_eq(b, "XBPS") || str_eq(b, "Slackware") || str_eq(b, "Eopkg") || str_eq(
        b,
        "Homebrew",
    ) || str_eq(b, "Homebrew Cask") || str_eq(b, "NPM")
}

/// Items with equal batch keys are removed by one command: for a batchable
/// manager everything of one installation, otherwise only the item itself.
pub open spec fn batch_key(m: Match) -> Seq<char> {
    if batchable(m.backend@) {
        m.backend@ + seq![nul()] + m.scope@ + seq![nul()] + m.installation@ + seq![nul()]
            + m.profile@
    } else {
        key_spec(m)
    }
}

fn batch_key_of(item: &Match) -> (r: Vec<char>)
    ensures
        r@ == batch_key(*item),
{
    if is_batchable(item.backend.as_str()) {
        let mut k = item.backend.clone();
        push_char(&mut k, '\0');
        push_str(&mut k, item.scope.as_str());
        push_char(&mut k, '\0');
        push_str(&mut k, item.installation.as_str());
        push_char(&mut k, '\0');
        push_str(&mut k, item.profile.as_str());
        assert(k@ =~= batch_key(*item));
        chars_of(k.as_str())
    } else {
        let k = item.key();
        chars_of(k.as_str())
    }
}

/// The positions of the items whose batch key is `k`, in selection order.
pub open spec fn group_indices(items: Seq<Match>, k: Seq<char>) -> Seq<int>
    decreases items.len(),
{
    if items.len() == 0 {
        Seq::empty()
    } else {
        let rest = group_indices(items.drop_last(), k);
        if batch_key(items.last()) == k {
            rest.push(items.len() - 1)
        } else {
            rest
        }
    }
}

/// The positions in a group are valid, ascending, and exactly those of the
/// items with that key.
pub proof fn lemma_group_indices(items: Seq<Match>, k: Seq<char>)
    ensures
        forall|t: int|
            0 <= t < group_indices(items, k).len() ==> 0 <= #[trigger] group_indices(items, k)[t]
                < items.len() && batch_key(items[group_indices(items, k)[t]]) == k,
        forall|s: int, t: int|
            0 <= s < t < group_indices(items, k).len() ==> group_indices(items, k)[s]
                < group_indices(items, k)[t],
        forall|i: int|
            0 <= i < items.len() && batch_key(items[i]) == k ==> group_indices(
                items,
                k,
            ).contains(i),
    decreases items.len(),
{
    if items.len() > 0 {
        let d = items.drop_last();
        lemma_group_indices(d, k);
        let gi = group_indices(items, k);
        let gd = group_indices(d, k);
        assert forall|i: int| 0 <= i < items.len() && batch_key(items[i]) == k implies gi.contains(
            i,
        ) by {
            if i < items.len() - 1 {
                assert(d[i] == items[i]);
                assert(gd.contains(i));
                let t = choose|t: int| 0 <= t < gd.len() && gd[t] == i;
                assert(gi[t] == i);
            } else {
                assert(gi[gi.len() - 1] == i);
            }
        }
        assert forall|t: int| 0 <= t < gi.len() implies 0 <= #[trigger] gi[t] < items.len()
            && batch_key(items[gi[t]]) == k by {
            if t < gd.len() {
                assert(gi[t] == gd[t]);
                assert(d[gd[t]] == items[gd[t]]);
            }
        }
    }
}

/// `ks` lists every batch key of `items` once, in ascending order.
pub open spec fn key_list(items: Seq<Match>, ks: Seq<Seq<char>>) -> bool {
    &&& strictly_sorted(ks)
    &&& forall|k: Seq<char>|
        ks.contains(k) <==> exists|i: int| 0 <= i < items.len() && #[trigger] batch_key(items[i]) == k
}

/// Whether the manager's own cleanup was requested for a backend.
pub open spec fn cleanup_requested(cleanup: Seq<String>, backend: Seq<char>) -> bool {
    exists|j: int| 0 <= j < cleanup.len() && #[trigger] cleanup[j]@ == backend
}

/// The last position of `x` in a command, or -1.
pub open spec fn last_position(cmd: Seq<Seq<char>>, x: Seq<char>) -> int
    decreases cmd.len(),
{
    if cmd.len() == 0 {
        -1
    } else if cmd.last() == x {
        cmd.len() - 1
    } else {
        last_position(cmd.drop_last(), x)
    }
}

pub open spec fn grouped_message() -> Seq<char> {
    "could not construct a grouped removal command"@
}

/// One group's batch: its items in selection order, and the command for its
/// first item with the ids of the whole group where that item's id last
/// occurs.
pub open spec fn batch_spec(
    items: Seq<Match>,
    k: Seq<char>,
    cleanup: Seq<String>,
    env: RemovalEnv,
    facts: Seq<FileFacts>,
) -> Result<(Seq<Match>, Seq<Seq<char>>), Seq<char>> {
    let idx = group_indices(items, k);
    let group = idx.map_values(|i: int| items[i]);
    let first = items[idx[0]];
    match command_spec(first, cleanup_requested(cleanup, first.backend@), env, facts[idx[0]]) {
        Err(e) => Err(e),
        Ok(cmd) => if idx.len() <= 1 {
            Ok((group, cmd))
        } else {
            let p = last_position(cmd, first.id@);
            if p < 0 {
                Err(grouped_message())
            } else {
                Ok((group, cmd.take(p) + group.map_values(|m: Match| m.id@) + cmd.skip(p + 1)))
            }
        },
    }
}

/// The batches for the keys `ks`, in order, or the first group's error.
pub open spec fn batches_spec(
    items: Seq<Match>,
    ks: Seq<Seq<char>>,
    cleanup: Seq<String>,
    env: RemovalEnv,
    facts: Seq<FileFacts>,
) -> Result<Seq<(Seq<Match>, Seq<Seq<char>>)>, Seq<char>>
    decreases ks.len(),
{
    if ks.len() == 0 {
        Ok(Seq::empty())
    } else {
        match batches_spec(items, ks.drop_last(), cleanup, env, facts) {
            Err(e) => Err(e),
            Ok(bs) => match batch_spec(items, ks.last(), cleanup, env, facts) {
                Err(e) => Err(e),
                Ok(b) => Ok(bs.push(b)),
            },
        }
    }
}

pub open spec fn batch_view(b: RemovalBatch) -> (Seq<Match>, Seq<Seq<char>>) {
    (b.items@, texts(b.command@))
}

pub open spec fn batches_view(r: Result<Vec<RemovalBatch>, String>) -> Result<
    Seq<(Seq<Match>, Seq<Seq<char>>)>,
    Seq<char>,
> {
    match r {
        Ok(v) => Ok(v@.map_values(|b: RemovalBatch| batch_view(b))),
        Err(e) => Err(e@),
    }
}

pub(crate) fn cleanup_for(cleanup: &[String], backend: &str) -> (r: bool)
    ensures
        r == cleanup_requested(cleanup@, backend@),
{
    for j in 0..cleanup.len()
        invariant
            forall|q: int| 0 <= q < j ==> #[trigger] cleanup@[q]@ != backend@,
    {
        if str_eq(cleanup[j].as_str(), backend) {
            return true;
        }
    }
    false
}

proof fn lemma_last_position(cmd: Seq<Seq<char>>, x: Seq<char>)
    ensures
        -1 <= last_position(cmd, x) < cmd.len(),
        last_position(cmd, x) >= 0 ==> cmd[last_position(cmd, x)] == x,
    decreases cmd.len(),
{
    if cmd.len() > 0 && cmd.last() != x {
        lemma_last_position(cmd.drop_last(), x);
    }
}

fn find_last(cmd: &Vec<String>, x: &String) -> (r: Option<usize>)
    ensures
        match r {
            Some(p) => p as int == last_position(texts(cmd@), x@),
            None => last_position(texts(cmd@), x@) < 0,
        },
{
    let ghost c = texts(cmd@);
    let mut i: usize = cmd.len();
    assert(c.take(i as int) =~= c);
    while i > 0
        invariant
            i <= cmd@.len(),
            c == texts(cmd@),
            last_position(c, x@) == last_position(c.take(i as int), x@),
        decreases i,
    {
        assert(c.take(i as int).last() == cmd@[i - 1]@);
        if str_eq(cmd[i - 1].as_str(), x.as_str()) {
            return Some(i - 1);
        }
        assert(c.take(i as int).drop_last() =~= c.take(i - 1));
        i = i - 1;
    }
    None
}

pub open spec fn ids_of(group: Seq<Match>) -> Seq<Seq<char>> {
    group.map_values(|m: Match| m.id@)
}

/// The command with its word at `p` replaced by the ids of `group`.
fn splice_ids(cmd: &Vec<String>, p: usize, group: &Vec<Match>) -> (r: Vec<String>)
    requires
        p < cmd@.len(),
    ensures
        texts(r@) == texts(cmd@).take(p as int) + ids_of(group@) + texts(cmd@).skip(p + 1),
{
    let ghost c = texts(cmd@);
    let mut out: Vec<String> = Vec::new();
    for i in 0..p
        invariant
            p < cmd@.len(),
            c == texts(cmd@),
            texts(out@) == c.take(i as int),
    {
        let ghost before = out@;
        out.push(cmd[i].clone());
        proof {
            lemma_texts_push(before, out@.last());
            assert(c.take(i + 1) =~= c.take(i as int).push(cmd@[i as int]@));
        }
    }
    let ghost head = texts(out@);
    for j in 0..group.len()
        invariant
            p < cmd@.len(),
            c == texts(cmd@),
            texts(out@) == head + ids_of(group@).take(j as int),
    {
        let ghost before = out@;
        out.push(group[j].id.clone());
        proof {
            lemma_texts_push(before, out@.last());
            assert(ids_of(group@).take(j + 1) =~= ids_of(group@).take(j as int).push(
                group@[j as int].id@,
            ));
            assert(head + ids_of(group@).take(j + 1) =~= (head + ids_of(group@).take(j as int)).push(
                group@[j as int].id@,
            ));
        }
    }
    assert(ids_of(group@).take(group@.len() as int) =~= ids_of(group@));
    let ghost middle = texts(out@);
    let n = cmd.len();
    let mut i: usize = p + 1;
    assert(c.skip(p + 1).take(0) =~= Seq::<Seq<char>>::empty());
    assert(middle + c.skip(p + 1).take(0) =~= middle);
    while i < cmd.len()
        invariant
            p < i <= cmd@.len(),
            c == texts(cmd@),
            texts(out@) == middle + c.skip(p + 1).take(i - p - 1),
        decreases cmd@.len() - i,
    {
        let ghost before = out@;
        out.push(cmd[i].clone());
        proof {
            lemma_texts_push(before, out@.last());
            assert(c.skip(p + 1).take(i - p) =~= c.skip(p + 1).take(i - p - 1).push(
                cmd@[i as int]@,
            ));
            assert(middle + c.skip(p + 1).take(i - p) =~= (middle + c.skip(p + 1).take(
                i - p - 1,
            )).push(cmd@[i as int]@));
        }
        i = i + 1;
    }
    assert(c.skip(p + 1).take(cmd@.len() - p - 1) =~= c.skip(p + 1));
    out
}

/// The batch of the items whose batch key is `k`.
fn build_one(
    items: &[Match],
    k: &Vec<char>,
    cleanup: &[String],
    env: &RemovalEnv,
    facts: &[FileFacts],
) -> (r: Result<RemovalBatch, String>)
    requires
        facts@.len() == items@.len(),
        exists|i: int| 0 <= i < items@.len() && #[trigger] batch_key(items@[i]) == k@,
    ensures
        match r {
            Ok(b) => batch_spec(items@, k@, cleanup@, *env, facts@) == Ok::<
                (Seq<Match>, Seq<Seq<char>>),
                Seq<char>,
            >(batch_view(b)),
            Err(e) => batch_spec(items@, k@, cleanup@, *env, facts@) == Err::<
                (Seq<Match>, Seq<Seq<char>>),
                Seq<char>,
            >(e@),
        },
{
    let ghost gi = group_indices(items@, k@);
    let mut idx: Vec<usize> = Vec::new();
    let mut group: Vec<Match> = Vec::new();
    for i in 0..items.len()
        invariant
            idx@.len() == group_indices(items@.take(i as int), k@).len(),
            forall|t: int|
                0 <= t < idx@.len() ==> #[trigger] idx@[t] as int == group_indices(
                    items@.take(i as int),
                    k@,
                )[t],
            group@.len() == idx@.len(),
            forall|t: int| 0 <= t < group@.len() ==> #[trigger] group@[t] == items@[idx@[t] as int],
    {
        let key = batch_key_of(&items[i]);
        let ghost s = items@.take(i + 1);
        proof {
            assert(s.drop_last() =~= items@.take(i as int));
            assert(s.last() == items@[i as int]);
        }
        if chars_eq(&key, k) {
            idx.push(i);
            group.push(items[i].duplicate());
        }
    }
    assert(items@.take(items@.len() as int) =~= items@);
    proof {
        lemma_group_indices(items@, k@);
        let i0 = choose|i: int| 0 <= i < items@.len() && #[trigger] batch_key(items@[i]) == k@;
        assert(gi.contains(i0));
    }
    let ghost spec_group = gi.map_values(|i: int| items@[i]);
    assert(group@ =~= spec_group);
    let first = idx[0];
    let clean = cleanup_for(cleanup, group[0].backend.as_str());
    let command = command_for(&group[0], clean, env, &facts[first]);
    match command {
        Err(e) => Err(e),
        Ok(command) => {
            if group.len() <= 1 {
                Ok(RemovalBatch { items: group, command })
            } else {
                match find_last(&command, &group[0].id) {
                    None => Err(owned("could not construct a grouped removal command")),
                    Some(p) => {
                        proof {
                            lemma_last_position(texts(command@), group@[0].id@);
                        }
                        let spliced = splice_ids(&command, p, &group);
                        Ok(RemovalBatch { items: group, command: spliced })
                    },
                }
            }
        },
    }
}

proof fn lemma_batches_error_prefix(
    items: Seq<Match>,
    ks: Seq<Seq<char>>,
    n: int,
    cleanup: Seq<String>,
    env: RemovalEnv,
    facts: Seq<FileFacts>,
)
    requires
        0 <= n <= ks.len(),
        batches_spec(items, ks.take(n), cleanup, env, facts) is Err,
    ensures
        batches_spec(items, ks, cleanup, env, facts) == batches_spec(
            items,
            ks.take(n),
            cleanup,
            env,
            facts,
        ),
    decreases ks.len(),
{
    if n == ks.len() {
        assert(ks.take(n) =~= ks);
    } else {
        assert(ks.drop_last().take(n) =~= ks.take(n));
        lemma_batches_error_prefix(items, ks.drop_last(), n, cleanup, env, facts);
    }
}

/// Groups the selected items into removal commands: one batch per batch
/// key, in ascending key order, each with its items in selection order and
/// the command for its first item extended to all of them; or the first
/// group's error.
pub fn build_batches(
    items: &[Match],
    cleanup_backends: &[String],
    env: &RemovalEnv,
    facts: &[FileFacts],
) -> (r: Result<Vec<RemovalBatch>, String>)
    requires
        facts@.len() == items@.len(),
    ensures
        exists|ks: Seq<Seq<char>>|
            #[trigger] key_list(items@, ks) && batches_view(r) == batches_spec(
                items@,
                ks,
                cleanup_backends@,
                *env,
                facts@,
            ),
{
    let mut keys: Vec<Vec<char>> = Vec::new();
    for i in 0..items.len()
        invariant
            keys@.len() == i,
            forall|j: int| 0 <= j < i ==> #[trigger] keys@[j]@ == batch_key(items@[j]),
    {
        keys.push(batch_key_of(&items[i]));
    }
    let ks = sorted_distinct(&keys);
    let ghost kseq = deep(ks@);
    assert forall|k: Seq<char>| kseq.contains(k) <==> exists|i: int|
        0 <= i < items@.len() && #[trigger] batch_key(items@[i]) == k by {
        if kseq.contains(k) {
            let i = choose|i: int| 0 <= i < keys@.len() && #[trigger] keys@[i]@ == k;
            assert(batch_key(items@[i]) == k);
        }
        if exists|i: int| 0 <= i < items@.len() && #[trigger] batch_key(items@[i]) == k {
            let i = choose|i: int| 0 <= i < items@.len() && #[trigger] batch_key(items@[i]) == k;
            assert(keys@[i]@ == k);
        }
    }
    assert(key_list(items@, kseq));
    let mut out: Vec<RemovalBatch> = Vec::new();
    assert(out@.map_values(|b: RemovalBatch| batch_view(b)) =~= Seq::<
        (Seq<Match>, Seq<Seq<char>>),
    >::empty());
    assert(kseq.take(0) =~= Seq::<Seq<char>>::empty());
    for t in 0..ks.len()
        invariant
            facts@.len() == items@.len(),
            kseq == deep(ks@),
            key_list(items@, kseq),
            batches_spec(items@, kseq.take(t as int), cleanup_backends@, *env, facts@) == Ok::<
                Seq<(Seq<Match>, Seq<Seq<char>>)>,
                Seq<char>,
            >(out@.map_values(|b: RemovalBatch| batch_view(b))),
    {
        proof {
            assert(kseq.take(t + 1).drop_last() =~= kseq.take(t as int));
            assert(kseq.take(t + 1).last() == ks@[t as int]@);
            assert(kseq[t as int] == ks@[t as int]@);
            assert(kseq.contains(ks@[t as int]@));
        }
        match build_one(items, &ks[t], cleanup_backends, env, facts) {
            Err(e) => {
                proof {
                    lemma_batches_error_prefix(
                        items@,
                        kseq,
                        t + 1,
                        cleanup_backends@,
                        *env,
                        facts@,
                    );
                }
                return Err(e);
            },
            Ok(b) => {
                let ghost before = out@;
                out.push(b);
                assert(out@.map_values(|b: RemovalBatch| batch_view(b)) =~= before.map_values(
                    |b: RemovalBatch| batch_view(b),
                ).push(batch_view(b)));
            },
        }
    }
    assert(kseq.take(ks@.len() as int) =~= kseq);
    Ok(out)
}


// ---------------------------------------------------------------------------
// Non-interactive confirmed plans and pinned executables
// ---------------------------------------------------------------------------

/// The privilege helpers that may stand in front of a command.
pub open spec fn helper_name(s: Seq<char>) -> bool {
    s == "sudo"@ || s == "doas"@ || s == "pkexec"@
}

fn is_helper(s: &[char]) -> (r: bool)
    ensures
        r == helper_name(s@),
{
    let sudo = chars_of("sudo");
    let doas = chars_of("doas");
    let pkexec = chars_of("pkexec");
    chars_eq(s, &sudo) || chars_eq(s, &doas) || chars_eq(s, &pkexec)
}

/// The first position from `i` on whose word is not `--`, or -1.
pub open spec fn first_word_from(cmd: Seq<Seq<char>>, i: int) -> int
    decreases cmd.len() - i,
{
    if i < 0 || i >= cmd.len() {
        -1
    } else if cmd[i] != "--"@ {
        i
    } else {
        first_word_from(cmd, i + 1)
    }
}

proof fn lemma_first_word_from(cmd: Seq<Seq<char>>, i: int)
    requires
        0 <= i,
    ensures
        first_word_from(cmd, i) == -1 || (i <= first_word_from(cmd, i) < cmd.len()
            && cmd[first_word_from(cmd, i)] != "--"@),
    decreases cmd.len() - i,
{
    if i < cmd.len() && cmd[i] == "--"@ {
        lemma_first_word_from(cmd, i + 1);
    }
}

fn find_word_from(cmd: &Vec<String>, from: usize) -> (r: Option<usize>)
    ensures
        match r {
            Some(p) => p as int == first_word_from(texts(cmd@), from as int),
            None => first_word_from(texts(cmd@), from as int) == -1,
        },
{
    let ghost c = texts(cmd@);
    let mut i = from;
    while i < cmd.len()
        invariant
            from <= i,
            c == texts(cmd@),
            first_word_from(c, from as int) == first_word_from(c, i as int),
        decreases cmd@.len() - i,
    {
        assert(c[i as int] == cmd@[i as int]@);
        if !str_eq(cmd[i].as_str(), "--") {
            return Some(i);
        }
        i = i + 1;
    }
    None
}

/// The flag that makes a manager run without asking, for the managers
/// whose exact previews allow it.
pub open spec fn noninteractive_flag(backend: Seq<char>) -> Option<Seq<char>> {
    if backend == "APT"@ || backend == "APT-RPM"@ || backend == "DNF"@ || backend == "YUM"@ {
        Some("-y"@)
    } else if backend == "Zypper"@ {
        Some("--non-interactive"@)
    } else if backend == "Pacman"@ {
        Some("--noconfirm"@)
    } else {
        None
    }
}

/// The position of the manager itself: after a privilege helper (named by
/// its file name) and its `--`, otherwise the first word.
pub open spec fn manager_position(cmd: Seq<Seq<char>>) -> int {
    if cmd.len() > 0 && (match file_name_spec(cmd[0]) {
        Some(n) => helper_name(n),
        None => false,
    }) && first_word_from(cmd, 1) >= 0 {
        first_word_from(cmd, 1)
    } else {
        0
    }
}

/// The command with the backend's non-interactive flag right after the
/// manager, unless the flag is already present.
pub open spec fn noninteractive_spec(cmd: Seq<Seq<char>>, backend: Seq<char>) -> Seq<Seq<char>> {
    match noninteractive_flag(backend) {
        Some(flag) => if cmd.contains(flag) {
            cmd
        } else {
            cmd.insert(manager_position(cmd) + 1, flag)
        },
        None => cmd,
    }
}

fn contains_word(cmd: &Vec<String>, w: &str) -> (r: bool)
    ensures
        r == texts(cmd@).contains(w@),
{
    for i in 0..cmd.len()
        invariant
            forall|j: int| 0 <= j < i ==> #[trigger] cmd@[j]@ != w@,
    {
        if str_eq(cmd[i].as_str(), w) {
            assert(texts(cmd@)[i as int] == w@);
            return true;
        }
    }
    assert forall|j: int| 0 <= j < texts(cmd@).len() implies texts(cmd@)[j] != w@ by {
        assert(texts(cmd@)[j] == cmd@[j]@);
    }
    false
}

/// Makes a confirmed removal run without prompts: APT, APT-RPM, DNF and YUM
/// get `-y`, Zypper `--non-interactive` and Pacman `--noconfirm`, placed
/// right after the manager (behind a privilege helper and its `--`).
pub fn make_noninteractive(command: Vec<String>, backend: &str) -> (r: Vec<String>)
    requires
        command@.len() > 0 || noninteractive_flag(backend@) is None,
    ensures
        texts(r@) == noninteractive_spec(texts(command@), backend@),
{
    let ghost c = texts(command@);
    let mut command = command;
    let flag: &str;
    if str_eq(backend, "APT") || str_eq(backend, "APT-RPM") || str_eq(backend, "DNF") || str_eq(
        backend,
        "YUM",
    ) {
        flag = "-y";
    } else if str_eq(backend, "Zypper") {
        flag = "--non-interactive";
    } else if str_eq(backend, "Pacman") {
        flag = "--noconfirm";
    } else {
        return command;
    }
    assert(noninteractive_flag(backend@) == Some(flag@));
    if contains_word(&command, flag) {
        return command;
    }
    let helper = match file_name(command[0].as_str()) {
        Some(name) => is_helper(&name),
        None => false,
    };
    assert(c[0] == command@[0]@);
    let mut manager: usize = 0;
    if helper {
        match find_word_from(&command, 1) {
            Some(p) => {
                proof {
                    lemma_first_word_from(c, 1);
                }
                manager = p;
            },
            None => {},
        }
    }
    assert(manager as int == manager_position(c));
    let n = command.len();
    assert(manager < n);
    let ghost before = command@;
    command.insert(manager + 1, owned(flag));
    assert(texts(command@) =~= texts(before).insert(manager + 1, flag@));
    command
}

/// Making a command non-interactive twice changes nothing more.
pub proof fn noninteractive_is_idempotent(cmd: Seq<Seq<char>>, backend: Seq<char>)
    requires
        cmd.len() > 0 || noninteractive_flag(backend) is None,
    ensures
        noninteractive_spec(noninteractive_spec(cmd, backend), backend) == noninteractive_spec(
            cmd,
            backend,
        ),
{
    match noninteractive_flag(backend) {
        Some(flag) => {
            if !cmd.contains(flag) {
                let p = manager_position(cmd);
                if cmd.len() > 0 && first_word_from(cmd, 1) >= 0 {
                    lemma_first_word_from(cmd, 1);
                }
                let next = cmd.insert(p + 1, flag);
                assert(next[p + 1] == flag);
            }
        },
        None => {},
    }
}

/// The positions of a removal command whose programs must be pinned to
/// absolute paths: the first word, and after a privilege helper also the
/// program it runs.
pub open spec fn pin_positions(cmd: Seq<Seq<char>>) -> Result<Seq<int>, Seq<char>> {
    if cmd.len() == 0 {
        Err("empty removal command"@)
    } else if helper_name(cmd[0]) {
        if first_word_from(cmd, 1) < 0 {
            Err("missing privileged command"@)
        } else {
            Ok(seq![0, first_word_from(cmd, 1)])
        }
    } else {
        Ok(seq![0])
    }
}

pub fn pin_indexes(command: &Vec<String>) -> (r: Result<Vec<usize>, String>)
    ensures
        match r {
            Ok(v) => pin_positions(texts(command@)) == Ok::<Seq<int>, Seq<char>>(
                v@.map_values(|i: usize| i as int),
            ),
            Err(e) => pin_positions(texts(command@)) == Err::<Seq<int>, Seq<char>>(e@),
        },
{
    if command.len() == 0 {
        return Err(owned("empty removal command"));
    }
    let first = chars_of(command[0].as_str());
    assert(texts(command@)[0] == command@[0]@);
    let mut out: Vec<usize> = Vec::new();
    out.push(0);
    if is_helper(&first) {
        match find_word_from(command, 1) {
            None => {
                return Err(owned("missing privileged command"));
            },
            Some(p) => {
                out.push(p);
            },
        }
    }
    assert(out@.map_values(|i: usize| i as int) =~= match pin_positions(texts(command@)) {
        Ok(v) => v,
        Err(_) => Seq::empty(),
    });
    Ok(out)
}

/// What was found on the system for one program of a removal command.
pub struct ResolvedProgram {
    /// Where `PATH` lookup found the program, if anywhere.
    pub located: Option<String>,
    /// The canonical path of what was found, or why it could not be resolved.
    pub canonical: Result<String, String>,
    /// Owner and permission bits of the canonical file, or why they could
    /// not be read.
    pub owner_mode: Result<(u32, u32), String>,
    /// Each directory above the canonical file, nearest first, with its owner
    /// and permission bits or why they could not be read.
    pub ancestors: Vec<(String, Result<(u32, u32), String>)>,
}

/// Owned by root and not writable by group or others.
pub open spec fn trusted_owner(uid: u32, mode: u32) -> bool {
    uid == 0 && (mode & 0o22u32) == 0
}

pub open spec fn ancestors_check(ancestors: Seq<(String, Result<(u32, u32), String>)>) -> Result<
    (),
    Seq<char>,
>
    decreases ancestors.len(),
{
    if ancestors.len() == 0 {
        Ok(())
    } else {
        let (dir, status) = ancestors[0];
        match status {
            Err(e) => Err("cannot validate directory "@ + dir@ + ": "@ + e@),
            Ok((uid, mode)) => if !trusted_owner(uid, mode) {
                Err("refusing privileged execution through untrusted directory "@ + dir@)
            } else {
                ancestors_check(ancestors.drop_first())
            },
        }
    }
}

/// The absolute path a program is pinned to, or why it may not run: it must
/// still be found, resolve and be inspectable, and a privileged program and
/// every directory above it must be owned by root and not writable by group
/// or others.
pub open spec fn pin_spec(name: Seq<char>, privileged: bool, found: ResolvedProgram) -> Result<
    Seq<char>,
    Seq<char>,
> {
    match found.located {
        None => Err(name + " is no longer available"@),
        Some(located) => match found.canonical {
            Err(e) => Err("cannot resolve "@ + located@ + ": "@ + e@),
            Ok(path) => match found.owner_mode {
                Err(e) => Err("cannot validate "@ + path@ + ": "@ + e@),
                Ok((uid, mode)) => if privileged && !trusted_owner(uid, mode) {
                    Err("refusing to run untrusted privileged executable "@ + path@)
                } else if privileged {
                    match ancestors_check(found.ancestors@) {
                        Err(e) => Err(e),
                        Ok(_) => Ok(path@),
                    }
                } else {
                    Ok(path@)
                },
            },
        },
    }
}

fn check_ancestors(ancestors: &Vec<(String, Result<(u32, u32), String>)>) -> (r: Result<(), String>)
    ensures
        match r {
            Ok(_) => ancestors_check(ancestors@) == Ok::<(), Seq<char>>(()),
            Err(e) => ancestors_check(ancestors@) == Err::<(), Seq<char>>(e@),
        },
{
    let mut i: usize = 0;
    assert(ancestors@.skip(0) =~= ancestors@);
    while i < ancestors.len()
        invariant
            i <= ancestors@.len(),
            ancestors_check(ancestors@) == ancestors_check(ancestors@.skip(i as int)),
        decreases ancestors@.len() - i,
    {
        let ghost rest = ancestors@.skip(i as int);
        assert(rest[0] == ancestors@[i as int]);
        assert(rest.drop_first() =~= ancestors@.skip(i + 1));
        let (dir, status) = &ancestors[i];
        match status {
            Err(e) => {
                let mut message = owned("cannot validate directory ");
                push_str(&mut message, dir.as_str());
                push_str(&mut message, ": ");
                push_str(&mut message, e.as_str());
                return Err(message);
            },
            Ok((uid, mode)) => {
                if *uid != 0 || (*mode & 0o22u32) != 0 {
                    let mut message = owned(
                        "refusing privileged execution through untrusted directory ",
                    );
                    push_str(&mut message, dir.as_str());
                    return Err(message);
                }
            },
        }
        i = i + 1;
    }
    assert(ancestors@.skip(i as int) =~= Seq::<(String, Result<(u32, u32), String>)>::empty());
    Ok(())
}

fn pin_one(name: &String, privileged: bool, found: &ResolvedProgram) -> (r: Result<String, String>)
    ensures
        match r {
            Ok(p) => pin_spec(name@, privileged, *found) == Ok::<Seq<char>, Seq<char>>(p@),
            Err(e) => pin_spec(name@, privileged, *found) == Err::<Seq<char>, Seq<char>>(e@),
        },
{
    let located = match &found.located {
        None => {
            let mut message = name.clone();
            push_str(&mut message, " is no longer available");
            return Err(message);
        },
        Some(l) => l,
    };
    let path = match &found.canonical {
        Err(e) => {
            let mut message = owned("cannot resolve ");
            push_str(&mut message, located.as_str());
            push_str(&mut message, ": ");
            push_str(&mut message, e.as_str());
            return Err(message);
        },
        Ok(p) => p,
    };
    match &found.owner_mode {
        Err(e) => {
            let mut message = owned("cannot validate ");
            push_str(&mut message, path.as_str());
            push_str(&mut message, ": ");
            push_str(&mut message, e.as_str());
            Err(message)
        },
        Ok((uid, mode)) => {
            if privileged && (*uid != 0 || (*mode & 0o22u32) != 0) {
                let mut message = owned("refusing to run untrusted privileged executable ");
                push_str(&mut message, path.as_str());
                Err(message)
            } else if privileged {
                match check_ancestors(&found.ancestors) {
                    Err(e) => Err(e),
                    Ok(_) => Ok(path.clone()),
                }
            } else {
                Ok(path.clone())
            }
        },
    }
}

/// The command with each program that `pin_positions` names replaced by
/// its pinned absolute path, in order, or the first error.
pub open spec fn pin_command_spec(cmd: Seq<Seq<char>>, found: Seq<ResolvedProgram>) -> Result<
    Seq<Seq<char>>,
    Seq<char>,
> {
    match pin_positions(cmd) {
        Err(e) => Err(e),
        Ok(positions) => {
            let privileged = positions.len() == 2;
            match pin_spec(cmd[positions[0]], privileged, found[0]) {
                Err(e) => Err(e),
                Ok(p0) => if !privileged {
                    Ok(cmd.update(0, p0))
                } else {
                    let pinned = cmd.update(0, p0);
                    match pin_spec(pinned[positions[1]], privileged, found[1]) {
                        Err(e) => Err(e),
                        Ok(p1) => Ok(pinned.update(positions[1], p1)),
                    }
                },
            }
        },
    }
}

/// Pins a removal command to the programs that were validated: `found`
/// holds what was observed for each position of `pin_indexes`, in order.
pub fn pin_command(command: &Vec<String>, found: &Vec<ResolvedProgram>) -> (r: Result<
    Vec<String>,
    String,
>)
    requires
        pin_positions(texts(command@)) is Ok ==> found@.len() == pin_positions(
            texts(command@),
        )->Ok_0.len(),
    ensures
        res_view(r) == pin_command_spec(texts(command@), found@),
{
    let indexes = match pin_indexes(command) {
        Err(e) => {
            return Err(e);
        },
        Ok(v) => v,
    };
    let ghost positions = indexes@.map_values(|i: usize| i as int);
    assert(positions[0] == 0);
    let privileged = indexes.len() == 2;
    let mut pinned: Vec<String> = Vec::new();
    for i in 0..command.len()
        invariant
            pinned@.len() == i,
            forall|j: int| 0 <= j < i ==> #[trigger] pinned@[j]@ == command@[j]@,
    {
        pinned.push(command[i].clone());
    }
    assert(texts(pinned@) =~= texts(command@));
    let p0 = match pin_one(&pinned[0], privileged, &found[0]) {
        Err(e) => {
            return Err(e);
        },
        Ok(p) => p,
    };
    let ghost before = pinned@;
    pinned.set(0, p0);
    assert(texts(pinned@) =~= texts(before).update(0, p0@));
    if !privileged {
        return Ok(pinned);
    }
    let at = indexes[1];
    proof {
        lemma_first_word_from(texts(command@), 1);
    }
    assert(texts(pinned@)[at as int] == pinned@[at as int]@);
    let p1 = match pin_one(&pinned[at], privileged, &found[1]) {
        Err(e) => {
            return Err(e);
        },
        Ok(p) => p,
    };
    let ghost before1 = pinned@;
    pinned.set(at, p1);
    assert(texts(pinned@) =~= texts(before1).update(at as int, p1@));
    Ok(pinned)
}


/// The RPM front end that removes this system's RPM packages.
pub fn rpm_backend(facts: &PlatformFacts) -> (r: Option<&'static str>)
    ensures
        opt_view(r) == rpm_manager_spec(*facts),
{
    rpm_manager(facts)
}

} // verus!
