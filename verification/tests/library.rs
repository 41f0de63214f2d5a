use uninstall::discovery::{
    filter_dependencies, portage_world_contains, score, split_xbps, QueryMatcher,
};
use uninstall::discovery::appimage_signature;
use uninstall::appstream::parse_appstream;
use uninstall::fingerprint::fingerprint;
use uninstall::model::{Impact, Match, Preview, Role};
use uninstall::platform::{dnf_binary, native_family, rpm_manager, PlatformFacts};
use uninstall::provenance::{
    compact_command, install_reason, parse_key_records, render_dependency_path, root_path,
    ReasonFacts,
};
use uninstall::removal::{
    build_batches, command_for, make_noninteractive, FileFacts, RemovalEnv, TargetAccess,
};
use uninstall::util::{
    format_size, norm, package_base, path_within, relevant, sanitize, shell_quote,
};

fn access() -> TargetAccess {
    TargetAccess {
        parent: None,
        writable: true,
        inspect_error: None,
        parent_uid: 0,
        parent_mode: 0o755,
    }
}

fn no_files() -> FileFacts {
    FileFacts { exposed_same_file: false, source: access(), exposed: access() }
}

fn user_env() -> RemovalEnv {
    RemovalEnv {
        is_root: false,
        has_sudo: true,
        has_doas: false,
        has_pkexec: false,
        dnf_binary: Some("dnf5".to_owned()),
        transactional: false,
        has_gearlever: false,
        has_gearlever_cli: false,
        has_flatpak: true,
    }
}

fn facts() -> PlatformFacts {
    PlatformFacts {
        ids: vec!["fedora".to_owned()],
        ostree_booted: false,
        has_rpm_ostree: false,
        has_zypper: false,
        has_urpme: false,
        has_apt_get: false,
        has_dnf5: true,
        has_dnf: true,
        has_microdnf: false,
        has_yum: false,
        has_rpm: true,
        has_dpkg_query: false,
        has_pacman: false,
        has_apk: false,
        has_xbps_query: false,
    }
}

fn no_reasons() -> ReasonFacts {
    ReasonFacts {
        history: None,
        dnf_record: None,
        dependency_cause: None,
        snap_info: String::new(),
        groups: Vec::new(),
        environments: Vec::new(),
    }
}

#[test]
fn only_dependency_roles_are_hidden_candidates() {
    assert!(Role::Dependency.is_dependency());
    assert!(Role::WeakDependency.is_dependency());
    assert!(!Role::Group.is_dependency());
    assert!(!Role::Explicit.is_dependency());
}

#[test]
fn labels_are_human_readable() {
    assert_eq!(Role::WeakDependency.label(), "weak dependency");
    assert_eq!(Impact::Caution.label(), "CAUTION");
}

#[test]
fn match_key_separates_profiles_and_installations() {
    let first = Match::new("Flatpak", "org.example.App", "Example");
    let mut second = first.clone();
    second.installation = "work".to_owned();
    assert_ne!(first.key(), second.key());
}

#[test]
fn platform_selection_is_stable_within_an_invocation() {
    let f = facts();
    assert_eq!(native_family(&f), native_family(&f));
    assert_eq!(rpm_manager(&f), rpm_manager(&f));
    assert_eq!(dnf_binary(&f), dnf_binary(&f));
}

#[test]
fn exact_single_target_is_low_impact() {
    let preview = Preview::exact(vec!["example".to_owned()]);
    assert_eq!(preview.impact, Impact::Low);
}

#[test]
fn fingerprint_changes_with_cleanup() {
    let item = Match::new("Flatpak", "org.example.App", "Example");
    let preview = Preview::exact(vec![item.id.clone()]);
    assert_ne!(
        fingerprint(&preview, std::slice::from_ref(&item), &[]),
        fingerprint(&preview, &[item], &["Flatpak".to_owned()])
    );
}

#[test]
fn standalone_reason_is_explicit_about_unknown_source() {
    let item = Match::new("Standalone", "/home/me/.local/bin/edit", "edit");
    assert!(install_reason(&item, &no_reasons()).contains("original source is unknown"));
}

#[test]
fn command_abbreviation_is_marked() {
    let command = "dnf install ".to_owned() + &"package ".repeat(50);
    assert!(compact_command(&command).ends_with("(abbreviated)"));
}

#[test]
fn dependency_search_reaches_an_explicit_root() {
    let explicit = vec!["application".to_owned()];
    let path = root_path("leaf", &explicit, |package: &str, _first: bool| {
        Some(match package {
            "leaf" => vec!["middle".to_owned()],
            "middle" => vec!["application".to_owned()],
            _ => Vec::new(),
        })
    })
    .expect("root path");
    assert_eq!(path, ["application", "middle", "leaf"]);
    assert_eq!(
        render_dependency_path(&path, "requires"),
        "application → middle ultimately requires it"
    );
}

#[test]
fn dependency_search_ignores_cycles() {
    let explicit: Vec<String> = Vec::new();
    assert!(root_path("one", &explicit, |package: &str, _first: bool| Some(vec![
        if package == "one" { "two" } else { "one" }.to_owned()
    ]))
    .is_none());
}

#[test]
fn flatpak_scope_and_data_are_explicit() {
    let mut item = Match::new("Flatpak", "org.example.App", "Example");
    item.scope = "user".to_owned();
    assert_eq!(
        command_for(&item, true, &user_env(), &no_files()).expect("command"),
        ["flatpak", "uninstall", "-y", "--user", "--delete-data", "org.example.App"]
    );
}

#[test]
fn named_flatpak_installation_is_preserved() {
    let mut item = Match::new("Flatpak", "org.example.App", "Example");
    item.installation = "work".to_owned();
    assert!(command_for(&item, false, &user_env(), &no_files())
        .expect("command")
        .contains(&"--installation=work".to_owned()));
}

#[test]
fn conda_removes_a_package_not_the_environment() {
    let mut item = Match::new("Conda", "ruff", "ruff");
    item.profile = "/home/me/env".to_owned();
    let command = command_for(&item, false, &user_env(), &no_files()).expect("command");
    assert_eq!(command, ["conda", "remove", "--yes", "--prefix", "/home/me/env", "ruff"]);
    assert!(!command.contains(&"env".to_owned()));
}

#[test]
fn guix_uses_the_discovered_profile() {
    let mut item = Match::new("Guix", "hello", "hello");
    item.profile = "/home/me/.guix-profile".to_owned();
    assert!(command_for(&item, false, &user_env(), &no_files())
        .expect("command")
        .contains(&"--profile=/home/me/.guix-profile".to_owned()));
}

#[test]
fn container_exports_are_blocked() {
    let item = Match::new("Container Export", "example.desktop", "Example");
    assert!(command_for(&item, false, &user_env(), &no_files()).is_err());
}

#[test]
fn single_target_tool_managers_are_not_batched() {
    for backend in ["Pipx", "Cargo", "UV Tool"] {
        let first = Match::new(backend, "one", "one");
        let second = Match::new(backend, "two", "two");
        let batches = build_batches(&[first, second], &[], &user_env(), &[no_files(), no_files()])
            .expect("batches");
        assert_eq!(batches.len(), 2, "{backend}");
    }
}

#[test]
fn exact_previews_enable_manager_noninteractive_mode() {
    let command = make_noninteractive(
        vec!["apt-get".to_owned(), "remove".to_owned(), "ed".to_owned()],
        "APT",
    );
    assert_eq!(command, ["apt-get", "-y", "remove", "ed"]);
}

#[test]
fn normalization_is_case_and_diacritic_insensitive() {
    assert_eq!(norm("FrÉe-CAD"), "freecad");
}

#[test]
fn terminal_controls_are_replaced() {
    assert_eq!(sanitize("safe\u{1b}[31m\n"), "safe?[31m?");
}

#[test]
fn short_queries_require_an_exact_component() {
    assert!(!relevant("ed", &["editor"]));
    assert!(relevant("ed", &["org.example.ed"]));
}

#[test]
fn longer_queries_allow_substring_matches() {
    assert!(relevant("freecad", &["org.freecad.FreeCAD"]));
}

#[test]
fn rpm_architecture_is_removed_from_package_base() {
    assert_eq!(package_base("dosbox-staging.x86_64"), "dosbox-staging");
    assert_eq!(package_base("lib.example"), "lib.example");
}

#[test]
fn size_formatter_is_concise() {
    assert_eq!(format_size(1_610_612_736), "1.5 GiB");
    assert_eq!(format_size(524_288), "512 KiB");
}

#[test]
fn shell_display_quotes_metacharacters_without_executing_them() {
    assert_eq!(shell_quote("plain-name"), "plain-name");
    assert_eq!(shell_quote("$(touch bad)"), "'$(touch bad)'");
    assert_eq!(shell_quote("it's"), "'it'\\''s'");
}

#[test]
fn path_containment_is_component_aware() {
    assert!(path_within("/home/user/app", "/home/user"));
    assert!(!path_within("/home/username", "/home/user"));
}

#[test]
fn xbps_name_version_parser_preserves_hyphens() {
    assert_eq!(split_xbps("my-tool-1.2_3"), ("my-tool".to_owned(), "1.2_3".to_owned()));
}

#[test]
fn exact_identifier_ranks_before_fuzzy_name() {
    let exact = Match::new("APT", "edit", "edit");
    let fuzzy = Match::new("APT", "editor-libs", "editor-libs");
    let matcher = QueryMatcher::new("edit");
    assert!(score(&exact, &matcher) < score(&fuzzy, &matcher));
}

#[test]
fn key_value_parser_keeps_continuation_lines() {
    let records = parse_key_records("Name : app\nRequired By : one\n              two\n\n");
    assert_eq!(records[0].get("Required By"), Some("one two".to_owned()));
}

#[test]
fn appstream_parser_reads_names_packages_and_binaries() {
    let records = parse_appstream(
        br#"<components><component type="desktop-application">
            <id>org.example.Editor</id><name>Example Editor</name>
            <summary>Edit files safely</summary><pkgname>example-editor</pkgname>
            <provides><binary>example-edit</binary></provides>
        </component></components>"#,
        None,
    );
    assert_eq!(records.len(), 1);
    assert_eq!(records[0].id, "org.example.Editor");
    assert_eq!(records[0].name, "Example Editor");
    assert_eq!(records[0].package, "example-editor");
    assert_eq!(records[0].binaries, ["example-edit"]);
}

#[test]
fn portage_world_handles_versions_slots_and_use_flags() {
    let world = "# comment\n@system\n>=app-editors/neovim-0.10:0[luajit]\n";
    assert!(portage_world_contains(world, "app-editors/neovim"));
    assert!(!portage_world_contains(world, "dev-libs/libtermkey"));
}

#[test]
fn fuzzy_dependencies_are_hidden_when_an_app_is_visible() {
    let app = Match::new("DNF", "editor", "Editor");
    let mut library = Match::new("DNF", "editor-libs", "editor-libs");
    library.role = Role::Dependency;
    let (visible, hidden) = filter_dependencies(vec![app, library], "editor", false);
    assert_eq!(visible.len(), 1);
    assert_eq!(hidden, 1);
}

#[test]
fn sole_dependency_result_is_not_hidden() {
    let mut library = Match::new("DNF", "library-tools", "library-tools");
    library.role = Role::Dependency;
    let (visible, hidden) = filter_dependencies(vec![library], "library", false);
    assert_eq!(visible.len(), 1);
    assert_eq!(hidden, 0);
}

#[test]
fn exact_dependency_is_never_hidden() {
    let mut library = Match::new("DNF", "library", "library");
    library.role = Role::Dependency;
    let (visible, hidden) = filter_dependencies(vec![library], "library", false);
    assert_eq!(visible.len(), 1);
    assert_eq!(hidden, 0);
}

#[test]
fn appimage_signature_is_detected_without_an_extension() {
    let mut header = [0_u8; 11];
    header[..4].copy_from_slice(b"\x7fELF");
    header[8..10].copy_from_slice(b"AI");
    header[10] = 2;
    assert!(appimage_signature(&header));
}

#[test]
fn ordinary_elf_header_is_not_an_appimage() {
    assert!(!appimage_signature(b"\x7fELFordinary"));
}
