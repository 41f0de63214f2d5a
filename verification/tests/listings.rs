use uninstall::archive::{flatpak_archive, installed_version_of};
use uninstall::cleanup::{du_size, unchanged, EntryState};
use uninstall::history::{eopkg_parent, history_logs};
use uninstall::inventory::{
    apk_inventory, apk_verbose, apk_world, apt_inventory, eopkg_automatic, eopkg_inventory,
    flatpak_listing, flatpak_locations, guix_listing, nix_legacy_listing, nix_profile_listing,
    opkg_list, opkg_status, pacman_inventory, portage_package, relevant_items, rpm_inventory,
    rpm_matches, slackware_listing, snap_listing, swupd_bundles, swupd_listing, swupd_repositories, xbps_inventory,
    xbps_manual, PortageFiles,
};
use uninstall::model::{Match, Role};
use uninstall::provenance::{cause_needed, parse_key_records};
use uninstall::tools::{
    appimage_file, brew_listing, cargo_listing, conda_environments, conda_listing,
    desktop_appimage, desktop_command, desktop_entry, desktop_owners, desktop_target,
    gearlever_json_line, gearlever_listing, lists_gearlever, npm_listing, pipx_listing,
    uv_listing, BrewRecord, DesktopTarget, GearLeverRecord, PipxEnvironment,
};

fn s(v: &str) -> String {
    v.to_string()
}

#[test]
fn snap_list_skips_header_and_irrelevant_snaps() {
    let text = "Name      Version  Rev  Tracking\nfirefox   128.0    4000 latest/stable\ncore22    2024     1380 latest/stable\n";
    let found = snap_listing(text, "firefox");
    assert_eq!(found.len(), 1);
    assert_eq!(found[0].backend, "Snap");
    assert_eq!(found[0].id, "firefox");
    assert_eq!(found[0].version, "128.0");
    assert_eq!(found[0].role, Role::Explicit);
    assert!(snap_listing("Name Version\n", "name").is_empty());
}

#[test]
fn guix_listing_records_profile() {
    let found = guix_listing("hello\t2.12.1\tout\t/gnu/store/x-hello\n", "hello", "/home/a/.guix-profile");
    assert_eq!(found.len(), 1);
    assert_eq!(found[0].version, "2.12.1");
    assert_eq!(found[0].profile, "/home/a/.guix-profile");
    assert_eq!(found[0].scope, "user");
}

#[test]
fn nix_listings_name_their_elements() {
    let found = nix_legacy_listing("hello-2.12.1  /nix/store/abc-hello-2.12.1\n", "hello");
    assert_eq!(found.len(), 1);
    assert_eq!(found[0].backend, "Nix Legacy");
    assert_eq!(found[0].id, "hello");
    assert_eq!(found[0].version, "2.12.1");
    assert_eq!(found[0].origin, "/nix/store/abc-hello-2.12.1");
    let profile = nix_profile_listing("{\"elements\": {\"hello\": {}, \"ripgrep\": {}}}", "ripgrep");
    assert_eq!(profile.len(), 1);
    assert_eq!(profile[0].backend, "Nix");
    assert_eq!(profile[0].id, "ripgrep");
    let legacy_profile = nix_profile_listing("{\"hello\": {}}", "hello");
    assert_eq!(legacy_profile.len(), 1);
    assert!(nix_profile_listing("not json", "hello").is_empty());
}

#[test]
fn swupd_roles_follow_status() {
    let found = swupd_listing("editors: explicitly installed\neditors-extra: installed\n", "editors");
    assert_eq!(found.len(), 2);
    assert_eq!(found[0].id, "editors");
    assert_eq!(found[0].role, Role::Explicit);
    assert_eq!(found[1].role, Role::Dependency);
    let bundles = swupd_bundles("mybundle  extra\n", "mybundle", "repo1");
    assert_eq!(bundles.len(), 1);
    assert_eq!(bundles[0].backend, "Swupd 3rd-party");
    assert_eq!(bundles[0].origin, "repo1");
}

#[test]
fn flatpak_locations_are_ordered() {
    let files = vec![s("[Installation \"extra\"]\nPath=/x\n"), s("[installation \"a-b\"]\n")];
    let locations = flatpak_locations(&files);
    assert_eq!(
        locations,
        vec![
            (s("system"), s("")),
            (s("system"), s("a-b")),
            (s("system"), s("extra")),
            (s("user"), s("")),
        ]
    );
}

#[test]
fn flatpak_listing_keeps_size_text() {
    let text = "org.mozilla.firefox\tFirefox\t128.0\tflathub\t250.1 MB\norg.gnome.Maps\tMaps\t46\tflathub\t10 MB\n";
    let found = flatpak_listing(text, "firefox", "user", "");
    assert_eq!(found.len(), 1);
    assert_eq!(found[0].0.id, "org.mozilla.firefox");
    assert_eq!(found[0].0.name, "Firefox");
    assert_eq!(found[0].0.origin, "flathub");
    assert_eq!(found[0].0.scope, "user");
    assert_eq!(found[0].1, Some(s("250.1 MB")));
}

#[test]
fn apt_inventory_reads_installed_packages() {
    let text = "ii \tvim\t2:9.0\tVi IMproved\t3500\nrc \told\t1.0\tgone\t10\nii \tbig\t1\tx\t99999999999999999999\n";
    let items = apt_inventory(text);
    assert_eq!(items.len(), 2);
    assert_eq!(items[0].id, "vim");
    assert_eq!(items[0].installed_size_bytes, Some(3500 * 1024));
    assert_eq!(items[1].installed_size_bytes, None);
    let relevant = relevant_items(&items, "vim");
    assert_eq!(relevant.len(), 1);
    assert_eq!(relevant[0].summary, "Vi IMproved");
}

#[test]
fn pacman_inventory_reads_records() {
    let records = parse_key_records(
        "Name            : vim\nVersion         : 9.1\nDescription     : Vi Improved\nInstalled Size  : 4.50 MiB\nInstall Reason  : Explicitly installed\n\nName : lib\nInstall Reason : Installed as a dependency for another package\n",
    );
    let items = pacman_inventory(&records);
    assert_eq!(items.len(), 2);
    assert_eq!(items[0].0.id, "vim");
    assert_eq!(items[0].0.role, Role::Explicit);
    assert_eq!(items[0].1, Some(s("4.50 MiB")));
    assert_eq!(items[1].0.role, Role::Dependency);
}

#[test]
fn rpm_inventory_builds_ids_with_architecture() {
    let text = "P\tfirefox\t128.0-1.fc40\tMozilla Firefox\t250000000\tx86_64\nP\tfilesystem\t3.18-8\tThe basic directory layout\t0\t\n";
    let items = rpm_inventory(text, "DNF", &None);
    assert_eq!(items.len(), 2);
    assert_eq!(items[0].id, "firefox.x86_64");
    assert_eq!(items[0].architecture, "x86_64");
    assert_eq!(items[0].installed_size_bytes, Some(250000000));
    assert_eq!(items[0].role, Role::Unknown);
    assert_eq!(items[1].id, "filesystem");
    let layered = rpm_inventory(text, "RPM-OSTree", &Some(vec![s("firefox")]));
    assert_eq!(layered.len(), 1);
    assert_eq!(layered[0].role, Role::Explicit);
    let exact = rpm_matches(&items, "firefox.x86_64");
    assert_eq!(exact.len(), 1);
    assert_eq!(exact[0].id, "firefox.x86_64");
}

#[test]
fn slackware_and_portage_entries() {
    let found = slackware_listing(&vec![s("vim-9.1.0-x86_64-1"), s("other-1-noarch-1")], "vim");
    assert_eq!(found.len(), 1);
    assert_eq!(found[0].id, "vim");
    assert_eq!(found[0].version, "9.1.0");
    let files = PortageFiles {
        category: s("app-editors"),
        pn: s("vim\n"),
        description: s("Vim, an improved vi-style text editor\n"),
        pvr: s("9.1.0-r1\n"),
        repository: s("gentoo\n"),
        size: s("4096\n"),
    };
    let item = portage_package(&files, "app-editors/vim\n", "/", "/home/a", "vim").expect("relevant");
    assert_eq!(item.id, "app-editors/vim");
    assert_eq!(item.version, "9.1.0-r1");
    assert_eq!(item.installed_size_bytes, Some(4096));
    assert_eq!(item.role, Role::Explicit);
    assert_eq!(item.scope, "system");
    assert!(portage_package(&files, "", "/", "/home/a", "emacs").is_none());
}

#[test]
fn apk_database_and_world() {
    let world = apk_world("vim>9\n# comment\n\nbusybox\n");
    assert_eq!(world, vec![s("vim"), s("busybox")]);
    let installed = "P:vim\nV:9.1-r0\nT:Vi IMproved\nI:3000\no:vim\n\nP:libfoo\nV:1-r0\n";
    let items = apk_inventory(installed, &world);
    assert_eq!(items.len(), 2);
    assert_eq!(items[0].role, Role::Explicit);
    assert_eq!(items[0].installed_size_bytes, Some(3000));
    assert_eq!(items[0].origin, "vim");
    assert_eq!(items[1].role, Role::Dependency);
    let verbose = apk_verbose("vim-9.1.0-r0\nbad\n");
    assert_eq!(verbose.len(), 1);
    assert_eq!(verbose[0].id, "vim");
    assert_eq!(verbose[0].version, "9.1.0-r0");
}

#[test]
fn opkg_status_and_list() {
    let status = "Package: nano\nVersion: 7.2\nStatus: install user installed\nInstalled-Size: 500\n\nPackage: libc\nStatus: install ok installed\nAuto-Installed: yes\n\nPackage: gone\nStatus: deinstall ok not-present\n";
    let items = opkg_status(status);
    assert_eq!(items.len(), 2);
    assert_eq!(items[0].role, Role::Explicit);
    assert_eq!(items[0].installed_size_bytes, Some(500));
    assert_eq!(items[1].role, Role::Dependency);
    let listed = opkg_list("nano - 7.2 - small editor - extra\n");
    assert_eq!(listed.len(), 1);
    assert_eq!(listed[0].version, "7.2");
    assert_eq!(listed[0].summary, "small editor - extra");
}

#[test]
fn xbps_manual_and_inventory() {
    let manual = xbps_manual("vim-9.1.0_1\n");
    assert_eq!(manual, vec![s("vim")]);
    let items = xbps_inventory("ii vim-9.1.0_1 Vim editor\nii libx-1.0_2 library\nhr held-1_1 x\n", &manual);
    assert_eq!(items.len(), 2);
    assert_eq!(items[0].id, "vim");
    assert_eq!(items[0].version, "9.1.0_1");
    assert_eq!(items[0].summary, "Vim editor");
    assert_eq!(items[0].role, Role::Explicit);
    assert_eq!(items[1].role, Role::Dependency);
}

#[test]
fn eopkg_automatic_packages_are_dependencies() {
    let automatic = eopkg_automatic("libfoo - app\n");
    let items = eopkg_inventory("app - An application\nlibfoo - A library\n", &automatic);
    assert_eq!(items.len(), 2);
    assert_eq!(items[0].role, Role::Explicit);
    assert_eq!(items[1].role, Role::Dependency);
    assert_eq!(items[1].origin, "app");
    assert_eq!(items[1].summary, "A library");
}

#[test]
fn uv_tools_with_commands() {
    let text = "ruff v0.5.0\n- ruff\nhttpie v3.2.2\n- http\n- https\n";
    let found = uv_listing(text, "https");
    assert_eq!(found.len(), 1);
    assert_eq!(found[0].0.id, "httpie");
    assert_eq!(found[0].0.version, "3.2.2");
    assert_eq!(found[0].1, Some(s("https")));
}

#[test]
fn pipx_npm_cargo_conda_entries() {
    let envs = vec![PipxEnvironment {
        environment: s("black"),
        package: Some(s("black")),
        apps: vec![s("black"), s("blackd")],
        version: Some(s("24.1")),
        source: None,
    }];
    let pipx = pipx_listing(&envs, "blackd", "user");
    assert_eq!(pipx.len(), 1);
    assert_eq!(pipx[0].0.origin, "black");
    assert_eq!(pipx[0].1, Some(s("blackd")));
    let deps = vec![(s("typescript"), Some(s("5.4")), None), (s("npm"), None, None)];
    let npm = npm_listing("/home/a/.npm-global\n", &Some(vec![s("typescript")]), &deps, "/home/a", "typescript");
    assert_eq!(npm.len(), 1);
    assert_eq!(npm[0].scope, "user");
    assert!(npm_listing("/usr", &Some(vec![s("npm")]), &deps, "/home/a", "typescript").is_empty());
    let installs = vec![(s("ripgrep 14.1.0 (registry+https://github.com/rust-lang/crates.io-index)"), vec![s("rg")])];
    let cargo = cargo_listing(&installs, "rg");
    assert_eq!(cargo.len(), 1);
    assert_eq!(cargo[0].0.id, "ripgrep");
    assert_eq!(cargo[0].0.version, "14.1.0");
    assert_eq!(cargo[0].1, Some(s("rg")));
    let packages = vec![(Some(s("numpy")), Some(s("1.26")), Some(s("conda-forge"))), (None, None, None)];
    let conda = conda_listing("micromamba", "/home/a/env", &packages, "numpy");
    assert_eq!(conda.len(), 1);
    assert_eq!(conda[0].backend, "Micromamba");
    assert_eq!(conda[0].profile, "/home/a/env");
    assert_eq!(conda_environments((0..200).map(|i| i.to_string()).collect()).len(), 128);
}

#[test]
fn homebrew_and_gear_lever_entries() {
    let records = vec![BrewRecord { cask: true, id: Some(s("firefox")), version: Some(s("128")), tap: Some(s("homebrew/cask")), on_request: Some(false) }];
    let brew = brew_listing(&records, "firefox");
    assert_eq!(brew.len(), 1);
    assert_eq!(brew[0].backend, "Homebrew Cask");
    assert_eq!(brew[0].role, Role::Dependency);
    assert!(lists_gearlever("org.x.Y\n it.mijorus.gearlever \n"));
    assert_eq!(gearlever_json_line("log\n  {\"installed\": []}\nend\n"), Some(s("  {\"installed\": []}")));
    let gear = vec![GearLeverRecord { name: Some(s("Krita")), path: Some(s("/home/a/AppImages/krita.appimage")), version: Some(s("5.2")), origin: None, present: true, size: Some(10) }];
    let found = gearlever_listing(&gear, "krita");
    assert_eq!(found.len(), 1);
    assert_eq!(found[0].id, "/home/a/AppImages/krita.appimage");
    assert_eq!(found[0].source_path, Some(s("/home/a/AppImages/krita.appimage")));
}

#[test]
fn appimages_and_desktop_entries() {
    let item = appimage_file("/home/a/Applications/Krita-5.2.AppImage", "krita", "/home/a", Some(5)).expect("appimage");
    assert_eq!(item.name, "Krita-5.2");
    assert_eq!(item.scope, "user");
    assert!(appimage_file("/home/a/Applications/krita.tar", "krita", "/home/a", None).is_none());
    let (name, exec, container) = desktop_entry("[Desktop Entry]\nName=Krita\nName=Other\nExec=\"/opt/krita/krita\" %F\nX-Toolbx-Container=fedora\n").expect("entry");
    assert_eq!(name, "Krita");
    assert_eq!(exec, "/opt/krita/krita");
    assert_eq!(container, "fedora");
    assert!(desktop_entry("[Desktop Entry]\nExec=x\n").is_none());
    match desktop_target(&name, &exec, &container, "/home/a/.local/share/applications/krita.desktop", "krita") {
        DesktopTarget::Container(m) => {
            assert_eq!(m.backend, "Container Export");
            assert_eq!(m.profile, "fedora");
        }
        _ => panic!("expected a container export"),
    }
    assert!(matches!(desktop_target("Krita", "/usr/bin/krita", "", "/a/krita.desktop", "gimp"), DesktopTarget::Skip));
    assert!(matches!(desktop_target("Krita", "/usr/bin/krita", "", "/a/krita.desktop", "krita"), DesktopTarget::Program));
    assert_eq!(desktop_appimage("/opt/k.AppImage", "Krita", None).backend, "AppImage");
    assert_eq!(desktop_command("/usr/bin/krita"), Some(s("krita")));
    assert_eq!(desktop_command("/usr/bin/env"), None);
    let owners = vec![Match::new("APT", "krita", "krita"), Match::new("Standalone", "/x", "x")];
    let renamed = desktop_owners(owners, "Krita");
    assert_eq!(renamed.len(), 1);
    assert_eq!(renamed[0].name, "Krita");
    assert_eq!(renamed[0].id, "krita");
}

#[test]
fn du_output_and_entry_state() {
    assert_eq!(du_size("12\t/home/a/.cache/x\n"), Some(12 * 1024));
    assert_eq!(du_size("99999999999999999999 x"), None);
    assert_eq!(du_size("18014398509481984 x"), Some(u64::MAX));
    let a = EntryState { device: 1, inode: 2, mode: 0o40755, change_seconds: 3, change_nanos: 4, parent_device: 1, parent_inode: 9 };
    let mut b = a;
    assert!(unchanged(&a, &b));
    b.inode = 5;
    assert!(!unchanged(&a, &b));
}

#[test]
fn swupd_repositories_are_sorted_once() {
    let text = "Repository: zeta\nrepo: alpha\nnothing listed\nRepository: zeta\n";
    assert_eq!(swupd_repositories(text), vec![s("alpha"), s("zeta")]);
}

#[test]
fn archives_find_their_installed_package() {
    let mut flatpak = Match::new("Flatpak", "org.example.App", "Example");
    flatpak.version = s("1.0");
    let items = vec![Match::new("Flatpak", "org.other.App", "Other"), flatpak];
    let found = flatpak_archive(&items, "org.example.App", "/home/a/app.flatpakref").expect("installed");
    assert_eq!(found.source_path, Some(s("/home/a/app.flatpakref")));
    assert_eq!(found.evidence, "matching local Flatpak bundle or reference");
    assert_eq!(found.version, "1.0");
    assert!(flatpak_archive(&items, "", "/x").is_none());
    assert!(flatpak_archive(&items, "org.missing.App", "/x").is_none());
    let mut slack = Match::new("Slackware", "vim", "vim");
    slack.version = s("9.1.0");
    assert_eq!(installed_version_of(&vec![slack], "vim"), Some(s("9.1.0")));
    assert_eq!(installed_version_of(&Vec::new(), "vim"), None);
}

#[test]
fn eopkg_parent_names_origin() {
    assert_eq!(eopkg_parent("app"), Some(s("app requires it")));
    assert_eq!(eopkg_parent(""), None);
}

#[test]
fn history_logs_newest_first() {
    let entries = vec![
        s("/var/log/apt/history.log.1.gz"),
        s("/var/log/apt/term.log"),
        s("/var/log/apt/history.log"),
        s("/var/log/apt/history.log.2.gz"),
        s("/var/log/apt/history.logger"),
    ];
    assert_eq!(
        history_logs(&entries, "history.log"),
        vec![s("/var/log/apt/history.log.2.gz"), s("/var/log/apt/history.log.1.gz"), s("/var/log/apt/history.log")]
    );
}

#[test]
fn dependency_queries_only_where_reasons_name_them() {
    let mut apk = Match::new("APK", "libfoo", "libfoo");
    apk.role = Role::Dependency;
    assert!(cause_needed(&apk));
    apk.role = Role::Explicit;
    assert!(!cause_needed(&apk));
    let mut flatpak = Match::new("Flatpak", "org.x.Y", "Y");
    flatpak.role = Role::Dependency;
    assert!(!cause_needed(&flatpak));
    let mut apt = Match::new("APT", "libc6", "libc6");
    apt.role = Role::WeakDependency;
    assert!(cause_needed(&apt));
    apt.reason = s("already explained");
    assert!(!cause_needed(&apt));
    let mut opkg = Match::new("OPKG", "x", "x");
    opkg.role = Role::Dependency;
    assert!(!cause_needed(&opkg));
}
