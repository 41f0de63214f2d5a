use std::time::Duration;
use uninstall::cleanup::{
    check_cleanup_target, cleanup_command, data_keys, data_options, data_roots, is_user_data,
    manager_cleanup_label, manager_cleanup_path, manager_cleanup_size, manager_cleanup_supported,
    safe_root,
};
use uninstall::command::{CommandResult, CommandStatus};
use uninstall::discovery::{exact_match, QueryMatcher};
use uninstall::model::{JsonResult, Match, Preview, Role};
use uninstall::paths::{absolute_path, compare_paths, join_path, sort_paths};
use uninstall::platform::{
    distro_ids, dnf_binary, native_family, os_release_value, rpm_manager, transactional_system,
    NativeFamily, PlatformFacts,
};
use uninstall::provenance::{
    annotate_roles, apt_auto_names, command_lines, dnf_group_reason, dnf_history_text, explain,
    group_inventory, parse_dnf_reasons, zypper_explicit, zypper_history, DnfRecord, ReasonFacts,
    RoleFacts,
};
use uninstall::removal::{pin_indexes, privilege, rpm_backend, RemovalEnv};
use uninstall::session::extra_removals;
use uninstall::util::command_string;

fn s(v: &str) -> String {
    v.to_string()
}

fn strings(v: &[&str]) -> Vec<String> {
    v.iter().map(|x| x.to_string()).collect()
}

fn ok(stdout: &str) -> CommandResult {
    CommandResult {
        status: CommandStatus::Success,
        code: 0,
        stdout: stdout.to_string(),
        stderr: String::new(),
        duration: Duration::from_millis(1),
    }
}

fn facts(ids: &[&str]) -> PlatformFacts {
    PlatformFacts {
        ids: strings(ids),
        ostree_booted: false,
        has_rpm_ostree: false,
        has_zypper: false,
        has_urpme: false,
        has_apt_get: false,
        has_dnf5: false,
        has_dnf: false,
        has_microdnf: false,
        has_yum: false,
        has_rpm: false,
        has_dpkg_query: false,
        has_pacman: false,
        has_apk: false,
        has_xbps_query: false,
    }
}

fn no_reason() -> ReasonFacts {
    ReasonFacts {
        history: None,
        dnf_record: None,
        dependency_cause: None,
        snap_info: String::new(),
        groups: Vec::new(),
        environments: Vec::new(),
    }
}

#[test]
fn os_release_names_the_platform() {
    let text = "NAME=\"Fedora Linux\"\nID=fedora\nID_LIKE='rhel centos'\n";
    assert_eq!(os_release_value(text, "NAME"), Some(s("Fedora Linux")));
    assert_eq!(os_release_value(text, "VERSION"), None);
    assert_eq!(distro_ids(text), strings(&["fedora", "rhel", "centos"]));
    let mut fedora = facts(&["fedora"]);
    fedora.has_dnf5 = true;
    fedora.has_dnf = true;
    fedora.has_rpm = true;
    assert_eq!(rpm_manager(&fedora), Some("DNF"));
    assert_eq!(rpm_backend(&fedora), Some("DNF"));
    assert_eq!(dnf_binary(&fedora), Some("dnf5"));
    assert_eq!(native_family(&fedora), NativeFamily::Rpm);
    let mut ostree = facts(&["fedora"]);
    ostree.ostree_booted = true;
    ostree.has_rpm_ostree = true;
    assert_eq!(rpm_manager(&ostree), Some("RPM-OSTree"));
    let suse = facts(&["opensuse-tumbleweed", "suse"]);
    assert_eq!(rpm_manager(&suse), None);
    assert_eq!(native_family(&facts(&["ubuntu", "debian"])), NativeFamily::Apt);
    assert_eq!(native_family(&facts(&["void"])), NativeFamily::Xbps);
    assert_eq!(native_family(&facts(&["unknown"])), NativeFamily::Unknown);
    assert!(transactional_system(true, true));
    assert!(!transactional_system(true, false));
}

#[test]
fn privilege_helpers_and_pinning() {
    let env = RemovalEnv {
        is_root: false,
        has_sudo: true,
        has_doas: true,
        has_pkexec: false,
        dnf_binary: None,
        transactional: false,
        has_gearlever: false,
        has_gearlever_cli: false,
        has_flatpak: false,
    };
    let command = strings(&["apt-get", "remove", "vim"]);
    assert_eq!(privilege(command.clone(), &env), Ok(strings(&["sudo", "--", "apt-get", "remove", "vim"])));
    let root = RemovalEnv { is_root: true, ..env };
    assert_eq!(privilege(command.clone(), &root), Ok(command.clone()));
    let bare = RemovalEnv { is_root: false, has_sudo: false, has_doas: false, has_pkexec: false, ..root };
    assert!(privilege(command.clone(), &bare).is_err());
    assert_eq!(pin_indexes(&command), Ok(vec![0]));
    assert_eq!(pin_indexes(&strings(&["sudo", "--", "apt-get", "remove"])), Ok(vec![0, 2]));
    assert!(pin_indexes(&strings(&["sudo", "--"])).is_err());
    assert!(pin_indexes(&Vec::new()).is_err());
    assert_eq!(command_string(&strings(&["rm", "--", "/tmp/a b"])), "rm -- '/tmp/a b'");
}

#[test]
fn data_cleanup_rules() {
    let mut flatpak = Match::new("Flatpak", "org.freecad.FreeCAD", "FreeCAD");
    flatpak.command_path = Some(s("/usr/bin/freecad-cmd"));
    assert!(manager_cleanup_supported(&flatpak));
    assert_eq!(manager_cleanup_label(&flatpak), Some(s("Sandbox data and permissions")));
    assert_eq!(manager_cleanup_path(&flatpak, "/home/a"), Some(s("/home/a/.var/app/org.freecad.FreeCAD")));
    assert_eq!(manager_cleanup_size(&flatpak, None), Some(0));
    let rpm = Match::new("DNF", "vim", "vim");
    assert!(!manager_cleanup_supported(&rpm));
    assert_eq!(manager_cleanup_size(&rpm, Some(5)), None);
    let keys = data_keys(&[flatpak.clone()]);
    assert!(keys.contains(&s("freecad")));
    assert!(keys.contains(&s("orgfreecadfreecad")));
    assert!(keys.contains(&s("freecadcmd")));
    assert!(is_user_data("FreeCAD.conf", &keys));
    assert!(!is_user_data("other", &keys));
    assert_eq!(
        data_roots("/home/a", None, Some("/home/a/.config"), Some("relative"), None),
        strings(&["/home/a/.cache", "/home/a/.config", "/home/a/.local/share", "/home/a/.local/state"])
    );
    assert!(safe_root("/home/a/.cache", "/home/a", None));
    assert!(!safe_root("/home/a", "/home/a", None));
    assert!(!safe_root("/etc", "/home/a", None));
    let options = data_options(&[flatpak], &[Some(10)], &strings(&["/home/a/.cache/FreeCAD"]), &vec![Some(3)]);
    assert_eq!(options.len(), 2);
    assert_eq!(options[0].label, "[Flatpak] Sandbox data and permissions");
    assert_eq!(options[0].size_bytes, Some(10));
    assert_eq!(options[1].label, "[Detected] /home/a/.cache/FreeCAD");
    assert_eq!(options[1].path, Some(s("/home/a/.cache/FreeCAD")));
    assert_eq!(cleanup_command("/home/a/.cache/x", true), strings(&["rm", "-r", "--", "/home/a/.cache/x"]));
    assert_eq!(cleanup_command("/home/a/x", false), strings(&["rm", "--", "/home/a/x"]));
    assert_eq!(check_cleanup_target("/home/a/.cache/x", "/home/a"), Ok(()));
    assert_eq!(check_cleanup_target("/home/a/", "/home/a"), Err(s("refusing unsafe cleanup target /home/a/")));
    assert!(check_cleanup_target("relative", "/home/a").is_err());
}

#[test]
fn paths_are_joined_and_ordered() {
    assert_eq!(join_path("/home/a", ".cache"), "/home/a/.cache");
    assert_eq!(join_path("/home/a", "/etc"), "/etc");
    assert_eq!(absolute_path("bin/tool", Some("/opt")), "/opt/bin/tool");
    assert_eq!(absolute_path("/usr/bin/tool", Some("/opt")), "/usr/bin/tool");
    assert!(compare_paths("/a/b", "/a/c") < 0);
    assert_eq!(compare_paths("/a//b", "/a/b"), 0);
    assert_eq!(sort_paths(&strings(&["/b", "/a/c", "/a", "/a/"])), strings(&["/a", "/a/c", "/b"]));
}

#[test]
fn recorded_roles_and_reasons() {
    let reasons = parse_dnf_reasons("vim|user|updates\nlibfoo|dependency|@System\nbad line\ngtk|weak dependency|fedora\n");
    assert_eq!(reasons.len(), 3);
    assert_eq!(reasons[0].role, Role::Explicit);
    assert_eq!(reasons[1].role, Role::Dependency);
    assert_eq!(reasons[2].role, Role::WeakDependency);
    let mut items = vec![Match::new("DNF", "vim.x86_64", "vim"), Match::new("APT", "libc6:amd64", "libc6")];
    let roles = RoleFacts {
        dnf: Some(reasons),
        apt_auto: Some(strings(&["libc6"])),
        zypper_explicit: None,
        yum_explicit: None,
    };
    annotate_roles(&mut items, &roles);
    assert_eq!(items[0].role, Role::Explicit);
    assert_eq!(items[0].origin, "updates");
    assert_eq!(items[1].role, Role::Dependency);
    explain(&mut items, &vec![no_reason(), no_reason()]);
    assert_eq!(items[0].reason, "explicitly requested");
    assert_eq!(items[1].reason, "marked as a dependency by APT");
    assert_eq!(apt_auto_names(&ok("libc6:amd64\n\nzlib1g\n")), Some(strings(&["libc6", "zlib1g"])));
    assert_eq!(command_lines(&ok(" a \n\nb\n")), Some(strings(&["a", "b"])));
    assert_eq!(zypper_explicit("<solvable kind=\"package\" name=\"vim\"/>"), strings(&["vim"]));
    assert_eq!(
        zypper_history("# start\n2024-01-01 10:00:00|install|vim|9.1\n2024-02-01|remove |vim|9.1\n2024-03-01|install|vim|9.2\n", "vim"),
        Some(s("Zypper history: installed vim on 2024-03-01"))
    );
    assert_eq!(zypper_history("2024-01-01|install|vim|9\n2024-02-01|remove|vim|9\n", "vim"), None);
}

#[test]
fn dnf_transactions_and_groups() {
    let record = DnfRecord {
        id: s("224"),
        command: s("dnf install @cosmic-desktop-environment"),
        reason: s("Group"),
        repository: s("fedora"),
        groups: strings(&["cosmic-desktop-apps"]),
        environments: strings(&["cosmic-desktop-environment"]),
    };
    assert_eq!(
        dnf_history_text(Some(&record)),
        Some(s("DNF transaction 224: dnf install @cosmic-desktop-environment (recorded reason: Group; source repository: fedora)"))
    );
    assert_eq!(dnf_history_text(None), None);
    let groups = group_inventory(
        "Id                   : cosmic-desktop-apps\nName                 : COSMIC Desktop Supplementary Applications\nDefault packages     : cosmic-edit\n                     : cosmic-term\n",
        true,
    );
    assert_eq!(groups.len(), 1);
    assert_eq!(groups[0].members, strings(&["cosmic-edit", "cosmic-term"]));
    let environments = group_inventory(
        "Id              : cosmic-desktop-environment\nName            : COSMIC Desktop\nRequired groups : cosmic-desktop-apps\n",
        false,
    );
    assert_eq!(
        dnf_group_reason("cosmic-edit", Some(&record), &groups, &environments),
        "installed through COSMIC Desktop Environment → COSMIC Desktop Supplementary Applications (cosmic-desktop-apps); DNF transaction 224: dnf install @cosmic-desktop-environment"
    );
    assert_eq!(dnf_group_reason("cosmic-edit", None, &groups, &environments), "installed as part of a package group");
}

#[test]
fn report_entries_and_extra_removals() {
    let mut item = Match::new("APT", "vim", "Vim");
    item.reason = s("explicitly requested");
    let entry = JsonResult::from_match(&item, Preview::exact(strings(&["vim"])));
    assert_eq!(entry.command_path, "");
    assert_eq!(entry.why_installed, "explicitly requested");
    let plan = Preview::exact(strings(&["vim", "vim-runtime", "vim:amd64"]));
    assert_eq!(extra_removals(&plan, &vec![item.clone()]), strings(&["vim-runtime"]));
    let matcher = QueryMatcher::new("VIM");
    assert!(exact_match(&item, &matcher));
    assert!(!exact_match(&Match::new("APT", "gvim", "gvim"), &matcher));
}
