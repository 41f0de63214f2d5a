use std::io::Write;
use uninstall::archive::{
    apk_archive, ar_control, archive_kinds, deb_archive, deb_archive_id, eopkg_archive,
    flatpak_bundle_id, flatpakref_id, names_archive, opkg_archive, pacman_archive,
    rpm_archive, rpm_archive_id, slackware_archive, slackware_archive_name, xbps_archive,
    xbps_archive_name, ArchiveKind,
};
use uninstall::cleanup::DataOption;
use uninstall::discovery::{
    detector_plan, rank_matches, safe_standalone, split_name_version, unique_matches,
    DetectorPlan,
};
use uninstall::model::{Impact, Match, Preview, PreviewStatus, Role};
use uninstall::number::{parse_u64, parse_usize};
use uninstall::owner::{
    appimage_owner, command_query, dpkg_owner, dpkg_search_line, first_named, node_package,
    pacman_owner, portage_contents_lists, portage_owner, rpm_owner, slackware_owner,
    slackware_package_lists, standalone_owner, RpmOwner,
};
use uninstall::provenance::parse_key_records;
use uninstall::session::{
    additional_removals, affirmative, authorization, cleanup_choices, compact_names,
    confirmation, detail_identifier, direct_batch, direct_keys, estimate, exact_targets,
    file_targets, flag_problem, impact_report, manager_note, mode, no_match_report,
    outside_home, parse_choices, planned_total, ready_heading, single_backend, size_table,
    unattended_allowed, FlagProblem, Flags, Mode,
};

fn preview(planned: &[&str], unused: &[&str]) -> Preview {
    let mut p = Preview::exact(planned.iter().map(|s| s.to_string()).collect());
    p.unused_dependencies = unused.iter().map(|s| s.to_string()).collect();
    p
}

fn option(label: &str, path: Option<&str>, backend: Option<&str>, size: Option<u64>) -> DataOption {
    DataOption {
        label: label.to_owned(),
        path: path.map(str::to_owned),
        backend: backend.map(str::to_owned),
        size_bytes: size,
    }
}

#[test]
fn unsigned_numbers_follow_str_parse() {
    assert_eq!(parse_u64("42"), Some(42));
    assert_eq!(parse_u64("+7"), Some(7));
    assert_eq!(parse_u64("+"), None);
    assert_eq!(parse_u64(""), None);
    assert_eq!(parse_u64("-1"), None);
    assert_eq!(parse_u64("1 2"), None);
    assert_eq!(parse_u64("18446744073709551615"), Some(u64::MAX));
    assert_eq!(parse_u64("18446744073709551616"), None);
    assert_eq!(parse_usize("0012"), Some(12));
}

#[test]
fn name_and_version_split_at_the_last_numeric_dash() {
    assert_eq!(split_name_version("neovim-0.10.1"), ("neovim".to_owned(), "0.10.1".to_owned()));
    assert_eq!(split_name_version("plain"), ("plain".to_owned(), String::new()));
}

#[test]
fn standalone_files_live_in_home_usr_local_or_opt() {
    assert!(safe_standalone("/home/me/bin/tool", "/home/me"));
    assert!(safe_standalone("/opt/tool/bin/tool", "/home/me"));
    assert!(safe_standalone("/usr/local/bin/tool", "/home/me"));
    assert!(!safe_standalone("/usr/bin/tool", "/home/me"));
}

#[test]
fn duplicate_reports_are_merged_in_key_order() {
    let mut first = Match::new("Snap", "b", "first");
    first.version = "1".to_owned();
    let mut second = Match::new("Snap", "b", "second");
    second.version = "2".to_owned();
    let other = Match::new("APT", "a", "other");
    let merged = unique_matches(&vec![first, other, second]);
    assert_eq!(merged.len(), 2);
    assert_eq!(merged[0].backend, "APT");
    assert_eq!(merged[1].name, "first");
}

#[test]
fn an_exact_command_narrows_the_results() {
    let mut tool = Match::new("APT", "editor-tool", "Editor Tool");
    tool.command_path = Some("/usr/bin/edit".to_owned());
    let other = Match::new("APT", "editing-suite", "Editing Suite");
    let ranked = rank_matches(&vec![other, tool], &Vec::new(), "edit");
    assert_eq!(ranked.len(), 1);
    assert_eq!(ranked[0].id, "editor-tool");
}

#[test]
fn gear_lever_hides_the_appimage_it_manages() {
    let mut managed = Match::new("Gear Lever", "app", "App");
    managed.source_path = Some("/home/me/Apps/app.AppImage".to_owned());
    let mut file = Match::new("AppImage", "/home/me/link.AppImage", "App");
    file.source_path = Some("/home/me/link.AppImage".to_owned());
    let canonical = vec![(
        "/home/me/link.AppImage".to_owned(),
        "/home/me/Apps/app.AppImage".to_owned(),
    )];
    let ranked = rank_matches(&vec![managed, file], &canonical, "app");
    assert_eq!(ranked.len(), 1);
    assert_eq!(ranked[0].backend, "Gear Lever");
}

#[test]
fn ranking_is_stable_for_equal_scores() {
    let a = Match::new("Snap", "tool-a", "tool");
    let b = Match::new("APT", "tool-b", "tool");
    let ranked = rank_matches(&vec![a, b], &Vec::new(), "tool");
    assert_eq!(ranked[0].backend, "APT");
    assert_eq!(ranked[1].backend, "Snap");
}

#[test]
fn detector_plan_follows_the_owner() {
    assert_eq!(detector_plan(&Vec::new()), DetectorPlan::All);
    let file = Match::new("AppImage", "/opt/app", "app");
    assert_eq!(detector_plan(&vec![file]), DetectorPlan::FileTools { desktop: true });
    let standalone = Match::new("Standalone", "/opt/tool", "tool");
    assert_eq!(detector_plan(&vec![standalone]), DetectorPlan::FileTools { desktop: false });
    let package = Match::new("APT", "tool", "tool");
    assert_eq!(detector_plan(&vec![package]), DetectorPlan::WithoutNative);
}

#[test]
fn rpm_reports_owner_base_or_nothing() {
    let text = "editor\t1.0-1\tx86_64\tAn editor\t2048\n";
    match rpm_owner("DNF", text, &None, "/usr/bin/edit") {
        RpmOwner::Owned(m) => {
            assert_eq!(m.id, "editor.x86_64");
            assert_eq!(m.name, "editor");
            assert_eq!(m.version, "1.0-1");
            assert_eq!(m.installed_size_bytes, Some(2048));
            assert_eq!(m.command_path.as_deref(), Some("/usr/bin/edit"));
        },
        _ => panic!("expected an owner"),
    }
    let layered = Some(vec!["other".to_owned()]);
    assert!(matches!(rpm_owner("RPM-OSTree", text, &layered, "/usr/bin/edit"), RpmOwner::Base));
    assert!(matches!(rpm_owner("DNF", "", &None, "/usr/bin/edit"), RpmOwner::Unknown));
}

#[test]
fn dpkg_owner_reads_installed_packages_only() {
    assert_eq!(dpkg_search_line("vim-tiny: /usr/bin/vi"), Some("vim-tiny".to_owned()));
    assert_eq!(dpkg_search_line("no owner"), None);
    let item = dpkg_owner("ii \tvim\t9.0\tVi IMproved\t3000", "/usr/bin/vim").expect("owner");
    assert_eq!(item.backend, "APT");
    assert_eq!(item.installed_size_bytes, Some(3000 * 1024));
    assert!(dpkg_owner("rc \tvim\t9.0\tVi\t3000", "/usr/bin/vim").is_none());
}

#[test]
fn pacman_owner_reads_the_install_reason() {
    let records = parse_key_records("Name : zlib\nVersion : 1.3\nInstall Reason : Installed as a dependency for another package\n");
    let item = pacman_owner(&records[0], "zlib", Some(10), "/usr/bin/x");
    assert_eq!(item.role, Role::Dependency);
    assert_eq!(item.version, "1.3");
}

#[test]
fn named_owner_reports_are_read() {
    let names = vec!["busybox".to_owned(), "vim".to_owned()];
    assert_eq!(first_named(&names, "/usr/bin/vim is owned by vim-9.0"), Some(1));
    assert_eq!(first_named(&names, "nothing"), None);
    assert!(portage_contents_lists("obj /usr/bin/nvim 123 456\n", "/usr/bin/nvim", "/bin/nvim"));
    assert!(slackware_package_lists("./usr/bin/tool\n", "/usr/bin/tool", "/bin/tool"));
    let item = slackware_owner("tool-1.2-x86_64-1", "/usr/bin/tool");
    assert_eq!(item.name, "tool");
    assert_eq!(item.version, "1.2");
}

#[test]
fn portage_owner_uses_the_world_file() {
    let item = portage_owner(
        "app-editors",
        "neovim-0.10.1",
        "gentoo\n",
        " 4096 \n",
        "app-editors/neovim\n",
        "/",
        "/home/me",
        "/usr/bin/nvim",
    );
    assert_eq!(item.id, "app-editors/neovim");
    assert_eq!(item.role, Role::Explicit);
    assert_eq!(item.origin, "gentoo");
    assert_eq!(item.installed_size_bytes, Some(4096));
    assert_eq!(item.scope, "system");
}

#[test]
fn npm_packages_are_found_under_node_modules() {
    assert_eq!(node_package("/usr/lib/node_modules/@scope/tool/bin/cli.js"), Some("@scope/tool".to_owned()));
    assert_eq!(node_package("/usr/lib/node_modules/tool/bin/cli.js"), Some("tool".to_owned()));
    assert_eq!(node_package("/usr/bin/tool"), None);
}

#[test]
fn commands_and_files_are_offered_carefully() {
    assert!(command_query("vim"));
    assert!(!command_query("bin/vim"));
    assert!(!command_query(""));
    let app = appimage_owner("/home/me/Apps/Tool.AppImage", "/home/me/bin/tool", "tool", "/home/me", Some(5))
        .expect("an AppImage under the home directory");
    assert_eq!(app.name, "Tool");
    assert_eq!(app.scope, "user");
    assert!(appimage_owner("/usr/bin/Tool.AppImage", "/usr/bin/Tool.AppImage", "tool", "/home/me", None).is_none());
    assert!(appimage_owner("/opt/Tool.AppImage", "/opt/Tool.AppImage", "tool", "/home/me", None).is_some());
    assert!(standalone_owner("/nix/store/x/bin/t", "/nix/store/x/bin/t", "t", "/nix", None).is_none());
    let item = standalone_owner("/usr/local/bin/t", "/usr/local/bin/t", "t", "/home/me", None).expect("file");
    assert_eq!(item.backend, "Standalone");
    assert_eq!(item.scope, "system");
}

#[test]
fn archive_names_pick_their_kinds() {
    assert_eq!(archive_kinds("Tool.RPM"), vec![ArchiveKind::Rpm]);
    assert_eq!(archive_kinds("tool-1-1-x86_64.pkg.tar.zst"), vec![ArchiveKind::Pacman]);
    assert_eq!(archive_kinds("app.flatpakref"), vec![ArchiveKind::FlatpakRef]);
    assert!(names_archive("x.tgz"));
    assert!(!names_archive("firefox"));
}

#[test]
fn local_archives_stand_for_installed_packages() {
    assert_eq!(rpm_archive_id("tool\t1.0-1\tnoarch\n"), Some("tool.noarch".to_owned()));
    let rpm = rpm_archive("tool\t1.0-1\tnoarch\n", "1.0-1\n", "DNF", "/tmp/tool.rpm").expect("rpm");
    assert_eq!(rpm.evidence, "local RPM archive version 1.0-1");
    assert!(rpm_archive("tool\t1.0-1\tnoarch\n", "  \n", "DNF", "/tmp/tool.rpm").is_none());
    assert_eq!(deb_archive_id("tool\n1.0\namd64\n"), Some("tool:amd64".to_owned()));
    assert_eq!(deb_archive_id("tool\n1.0\nall\n"), Some("tool".to_owned()));
    let deb = deb_archive("tool\n1.0\nall\n", " 1.0 \n", "/tmp/tool.deb").expect("deb");
    assert_eq!(deb.version, "1.0");
    let pac = pacman_archive("tool 1.1-1", "tool 1.0-1", "/tmp/t.pkg.tar.zst").expect("pacman");
    assert_eq!(pac.version, "1.0-1");
    assert!(pacman_archive("tool 1.1-1", "other 1.0-1", "/tmp/t").is_none());
}

#[test]
fn inventory_archives_are_looked_up_by_name() {
    let inventory = vec![("tool".to_owned(), "2.0".to_owned())];
    let apk = apk_archive("pkgname = tool\npkgver = 2.1\narch = x86_64\n", &inventory, "/tmp/tool.apk").expect("apk");
    assert_eq!(apk.version, "2.0");
    assert_eq!(apk.architecture, "x86_64");
    assert_eq!(apk.evidence, "local APK archive version 2.1");
    let opkg = opkg_archive("Package: tool\nVersion: 2.2\n", &inventory, "/tmp/tool.ipk").expect("opkg");
    assert_eq!(opkg.evidence, "local OPKG archive version 2.2");
    assert_eq!(xbps_archive_name("tool-2.3_1.x86_64.xbps"), ("tool".to_owned(), "2.3_1".to_owned()));
    let xbps = xbps_archive("tool-2.3_1.x86_64.xbps", &inventory, "/tmp/x").expect("xbps");
    assert_eq!(xbps.evidence, "local XBPS archive version 2.3_1");
    assert_eq!(slackware_archive_name("tool-2.4-x86_64-1.txz"), Some("tool".to_owned()));
    let slack = slackware_archive("tool-2.4-x86_64-1.txz", "2.4", "/tmp/t.txz").expect("slackware");
    assert_eq!(slack.architecture, "x86_64");
    let eopkg = eopkg_archive("Name: tool\nVersion: 3\n", "3", "/tmp/t.eopkg").expect("eopkg");
    assert_eq!(eopkg.evidence, "local Eopkg archive version 3");
    assert_eq!(flatpakref_id("[Flatpak Ref]\nName= org.example.App \n"), "org.example.App");
    assert_eq!(flatpak_bundle_id("app/org.example.App/x86_64/stable\n"), "org.example.App");
    assert_eq!(flatpak_bundle_id("runtime/org.example.Platform/x86_64/1"), "");
}

#[test]
fn opkg_control_is_read_from_the_ar_archive() {
    let mut tar_bytes = Vec::new();
    {
        let mut builder = tar::Builder::new(&mut tar_bytes);
        let data = b"Package: tool\nVersion: 1\n";
        let mut header = tar::Header::new_gnu();
        header.set_size(data.len() as u64);
        header.set_mode(0o644);
        header.set_cksum();
        builder.append_data(&mut header, "./control", &data[..]).expect("append");
        builder.finish().expect("finish");
    }
    let mut ar = b"!<arch>\n".to_vec();
    let name = format!("{:<16}", "control.tar/");
    let size = format!("{:<10}", tar_bytes.len());
    ar.extend_from_slice(name.as_bytes());
    ar.extend_from_slice(format!("{:<32}", "0").as_bytes());
    ar.extend_from_slice(size.as_bytes());
    ar.extend_from_slice(b"`\n");
    ar.extend_from_slice(&tar_bytes);
    assert_eq!(ar_control(&ar), "Package: tool\nVersion: 1\n");
    assert_eq!(ar_control(b"not an archive"), "");
}

#[test]
fn gzip_control_after_another_member_is_read() {
    let mut tar_bytes = Vec::new();
    {
        let mut builder = tar::Builder::new(&mut tar_bytes);
        let data = b"Package: zipped\nVersion: 2\n";
        let mut header = tar::Header::new_gnu();
        header.set_size(data.len() as u64);
        header.set_mode(0o644);
        header.set_cksum();
        builder.append_data(&mut header, "control", &data[..]).expect("append");
        builder.finish().expect("finish");
    }
    let mut encoder = flate2::write::GzEncoder::new(Vec::new(), flate2::Compression::default());
    encoder.write_all(&tar_bytes).expect("compress");
    let compressed = encoder.finish().expect("finish");
    let mut ar = b"!<arch>\n".to_vec();
    let member = |ar: &mut Vec<u8>, name: &str, data: &[u8]| {
        ar.extend_from_slice(format!("{:<16}", name).as_bytes());
        ar.extend_from_slice(format!("{:<32}", "0").as_bytes());
        ar.extend_from_slice(format!("{:<10}", data.len()).as_bytes());
        ar.extend_from_slice(b"`\n");
        ar.extend_from_slice(data);
        if data.len() % 2 == 1 {
            ar.push(b'\n');
        }
    };
    member(&mut ar, "debian-binary", b"2.0\n\n\n");
    member(&mut ar, "control.tar.gz/", &compressed);
    assert_eq!(ar_control(&ar), "Package: zipped\nVersion: 2\n");
}

#[test]
fn answers_are_read_as_choices() {
    assert_eq!(parse_choices(" A ", 3), Some(vec![0, 1, 2]));
    assert_eq!(parse_choices("3, 1,,1", 3), Some(vec![0, 2]));
    assert_eq!(parse_choices("4", 3), None);
    assert_eq!(parse_choices("0", 3), None);
    assert_eq!(parse_choices("x", 3), None);
    assert!(affirmative(" Yes "));
    assert!(!affirmative("yeah"));
}

#[test]
fn result_details_show_the_id_when_it_helps() {
    let same = Match::new("APT", "vim", "Vim");
    assert_eq!(detail_identifier(&same), None);
    let differs = Match::new("APT", "vim-gtk3:amd64", "Vim");
    assert_eq!(detail_identifier(&differs), Some("vim-gtk3:amd64".to_owned()));
    let flatpak = Match::new("Flatpak", "org.vim.Vim", "vim");
    assert_eq!(detail_identifier(&flatpak), Some("org.vim.Vim".to_owned()));
}

#[test]
fn long_name_lists_are_compacted() {
    let names: Vec<String> = (1..=14).map(|i| format!("p{i}")).collect();
    assert_eq!(compact_names(&names), "p1, p2, p3, p4, p5, p6, p7, p8, p9, p10, p11, p12 and 2 more");
    assert_eq!(compact_names(&vec!["a\u{1b}".to_owned()]), "a?");
}

#[test]
fn impact_is_reported_before_removal() {
    let selected = vec![Match::new("DNF", "editor", "Editor")];
    let plan = preview(&["editor", "editor-data", "libfoo"], &["libfoo"]);
    assert_eq!(additional_removals(&plan, &selected), vec!["editor-data".to_owned()]);
    let lines = impact_report(&plan, &selected);
    assert_eq!(lines, vec![
        "\nAlso expected to remove 1 other package: editor-data".to_owned(),
        "\nAlso expected to remove 1 now-unused dependency: libfoo".to_owned(),
    ]);
    let mut unknown = Preview::exact(Vec::new());
    unknown.status = PreviewStatus::Unknown;
    unknown.blockers = vec!["locked".to_owned()];
    assert_eq!(impact_report(&unknown, &selected).len(), 2);
}

#[test]
fn data_and_confirmation_rules() {
    let options = vec![
        option("Flatpak data", Some("/home/me/.var/app/x"), Some("Flatpak"), Some(10)),
        option("Config", Some("/etc/x"), None, None),
    ];
    assert_eq!(manager_note(&options), "Flatpak data is manager-owned.");
    assert_eq!(manager_note(&Vec::new()), "");
    let (backends, paths) = cleanup_choices(&options, &vec![1, 0]);
    assert_eq!(backends, vec!["Flatpak".to_owned()]);
    assert_eq!(paths, vec!["/etc/x".to_owned(), "/home/me/.var/app/x".to_owned()]);
    assert!(outside_home(&paths, "/home/me"));
    assert_eq!(ready_heading(0, true), "Ready to run:");
    assert_eq!(ready_heading(524_288, true), "Ready to run (freeing about 512 KiB):");
    assert_eq!(ready_heading(524_288, false), "Ready to run (freeing at least 512 KiB; some sizes unknown):");
    let one = vec![Match::new("Standalone", "/home/me/bin/t", "t")];
    assert_eq!(confirmation(Impact::Low, &one, false), None);
    assert_eq!(
        confirmation(Impact::Unknown, &one, false),
        Some(("REMOVE t".to_owned(), "Standalone removal".to_owned()))
    );
    assert_eq!(
        confirmation(Impact::High, &one, true),
        Some(("REMOVE t".to_owned(), "Data outside your home directory".to_owned()))
    );
}

#[test]
fn sizes_are_estimated_without_overflow() {
    let mut a = Match::new("DNF", "a", "a");
    a.installed_size_bytes = Some(u64::MAX);
    let options = vec![option("x", None, None, Some(5))];
    assert_eq!(estimate(&vec![a.clone()], &options, &vec![0], (7, true)), (u64::MAX, true));
    a.installed_size_bytes = None;
    assert_eq!(estimate(&vec![a], &options, &vec![0], (7, true)), (12, false));
    let table = size_table("tool.x86_64\t100\nbad line\nlib\t 2 \n", false);
    assert_eq!(table, vec![("tool".to_owned(), 100), ("lib".to_owned(), 2)]);
    assert_eq!(size_table("tool\t3\n", true), vec![("tool".to_owned(), 3072)]);
    assert_eq!(planned_total(&vec!["tool".to_owned(), "lib".to_owned()], &table), (102, true));
    assert_eq!(planned_total(&vec!["gone".to_owned()], &table), (0, false));
    assert_eq!(single_backend(&vec![Match::new("APT", "a", "a"), Match::new("APT", "b", "b")]), Some("APT".to_owned()));
    assert_eq!(single_backend(&vec![Match::new("APT", "a", "a"), Match::new("DNF", "b", "b")]), None);
}

#[test]
fn unattended_removal_needs_an_exact_authorization() {
    let found = vec![Match::new("APT", "Vim", "vim"), Match::new("DNF", "vim", "vim")];
    let selected = exact_targets(&found, "apt", "vim");
    assert_eq!(selected.len(), 1);
    assert_eq!(authorization(&selected[0]), "REMOVE APT:Vim");
    let mut plan = Preview::exact(vec!["vim".to_owned()]);
    assert!(unattended_allowed(&plan));
    plan.impact = Impact::High;
    assert!(!unattended_allowed(&plan));
}

#[test]
fn command_line_rules_are_enforced_in_order() {
    let base = Flags { app: true, self_uninstall: false, show_dependencies: false, json: false, backend: false, confirm: false };
    assert_eq!(flag_problem(&base), None);
    let f = Flags { self_uninstall: true, ..base };
    assert_eq!(flag_problem(&f), Some(FlagProblem::SelfUninstallCombined));
    let f = Flags { app: false, json: true, ..base };
    assert_eq!(flag_problem(&f), Some(FlagProblem::JsonWithoutApp));
    assert!(FlagProblem::JsonWithoutApp.is_missing());
    let f = Flags { json: true, backend: true, confirm: true, ..base };
    assert_eq!(flag_problem(&f), Some(FlagProblem::JsonWithAuthorization));
    let f = Flags { backend: true, ..base };
    assert_eq!(flag_problem(&f), Some(FlagProblem::BackendWithoutConfirm));
    assert_eq!(FlagProblem::BackendWithoutConfirm.message(), "--backend and --confirm must be used together");
    let f = Flags { backend: true, confirm: true, show_dependencies: true, ..base };
    assert_eq!(flag_problem(&f), Some(FlagProblem::AuthorizationWithDependencies));
    assert_eq!(mode(&base, "  "), Mode::NothingEntered);
    assert_eq!(mode(&base, " Uninstall "), Mode::SelfUninstall);
    assert_eq!(mode(&Flags { json: true, ..base }, "vim"), Mode::Json);
    assert_eq!(mode(&Flags { backend: true, confirm: true, ..base }, "vim"), Mode::Unattended);
    assert_eq!(mode(&base, "vim"), Mode::Interactive);
}

#[test]
fn direct_files_are_removed_without_helpers() {
    let mut app = Match::new("AppImage", "/home/me/A.AppImage", "A");
    app.source_path = Some("/home/me/A.AppImage".to_owned());
    app.command_path = Some("/home/me/bin/a".to_owned());
    let resolved = vec![
        ("/home/me/A.AppImage".to_owned(), Some("/home/me/A.AppImage".to_owned())),
        ("/home/me/bin/a".to_owned(), Some("/home/me/A.AppImage".to_owned())),
    ];
    let selected = vec![app];
    assert_eq!(file_targets(&selected, &resolved), vec!["/home/me/A.AppImage".to_owned(), "/home/me/bin/a".to_owned()]);
    let keys = direct_keys(&selected);
    assert!(direct_batch(&selected, &keys, "rm"));
    assert!(!direct_batch(&selected, &keys, "/usr/bin/sudo"));
}

#[test]
fn no_match_explains_why() {
    assert_eq!(no_match_report("x.deb", None, "", "/home/me"), vec!["No installed package matched this archive. The downloaded archive itself was not removed.".to_owned()]);
    assert_eq!(no_match_report("ls", Some("/usr/bin/ls"), " coreutils \n", "/home/me")[0], "coreutils is part of the rpm-ostree base OS image, not a layered app. It was not offered as a normal removal.");
    assert_eq!(no_match_report("ls", Some("/usr/bin/ls"), "", "/home/me")[0], "The command exists at /usr/bin/ls, but no supported package manager proved ownership.");
    assert_eq!(no_match_report("t", Some("/home/me/bin/t"), "", "/home/me"), vec!["No likely installed apps found.".to_owned()]);
}
