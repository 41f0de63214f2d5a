use uninstall::appstream::{component_commands, package_matches, parse_appstream, with_component};
use uninstall::history::{
    apk_parent, apt_history, apt_reverse_depends, blocks_reversed, dnf_transaction_record,
    legacy_dnf_id, legacy_dnf_record, pacman_history, pacman_required_by, xbps_parent,
    DnfPackage, DnfTransaction,
};
use uninstall::model::Match;
use uninstall::presence::{
    portage_present, presence_answer, presence_check, result_line, revalidation_problem,
    slackware_present, version_command, version_text, PresenceCheck,
};
use uninstall::provenance::decorate;
use uninstall::provenance::{ReasonFacts, RoleFacts};

#[test]
fn version_commands_ask_each_manager() {
    let apt = Match::new("APT", "vim", "vim");
    assert_eq!(
        version_command(&apt),
        Some(vec![
            "dpkg-query".to_owned(),
            "-W".to_owned(),
            "-f=${db:Status-Abbrev}\t${Version}\n".to_owned(),
            "vim".to_owned()
        ])
    );
    let mut flatpak = Match::new("Flatpak", "org.x.App", "App");
    flatpak.installation = "work".to_owned();
    assert_eq!(version_command(&flatpak).expect("command")[2], "--installation=work");
    assert_eq!(version_command(&Match::new("Pipx", "x", "x")), None);
}

#[test]
fn installed_versions_are_read_from_answers() {
    assert_eq!(version_text("APT", "vim", "ii \t2:9.0-1\n"), Some("2:9.0-1".to_owned()));
    assert_eq!(version_text("APT", "vim", "un \t\n"), None);
    assert_eq!(version_text("Pacman", "vim", "vim 9.1-2\n"), Some("9.1-2".to_owned()));
    assert_eq!(version_text("XBPS", "vim", "pkgver: vim-9.1_1\n"), Some("9.1_1".to_owned()));
    assert_eq!(version_text("APK", "vim", "vim-9.1-r0 description:\nvim-9.1-r0 webpage:\n"), Some("9.1-r0".to_owned()));
    assert_eq!(version_text("Snap", "core", "Name Version Rev\ncore 16-2.61 1234\n"), Some("16-2.61".to_owned()));
    assert_eq!(version_text("Cargo", "ripgrep", "ripgrep v14.1.0:\n    rg\n"), Some("14.1.0".to_owned()));
    assert_eq!(version_text("DNF", "vim", "\n9.1-1.fc40\nignored\n"), Some("9.1-1.fc40".to_owned()));
}

#[test]
fn changed_selections_are_refused() {
    let mut item = Match::new("APT", "vim", "Vim");
    item.version = "1".to_owned();
    assert_eq!(revalidation_problem(&item, Some(false), &None), Some("Vim is no longer installed".to_owned()));
    assert_eq!(
        revalidation_problem(&item, Some(true), &Some("2".to_owned())),
        Some("Vim changed from version 1 to 2 after selection".to_owned())
    );
    assert_eq!(revalidation_problem(&item, None, &Some("1".to_owned())), None);
    assert_eq!(result_line(&item, Some(false)), "  Removed: Vim [APT]");
    assert_eq!(result_line(&item, None), "  Pending or unverifiable: Vim [APT]");
}

#[test]
fn presence_checks_by_manager() {
    assert!(matches!(presence_check(&Match::new("APT", "vim", "vim")), PresenceCheck::Version));
    assert!(matches!(presence_check(&Match::new("AppImage", "/a", "a")), PresenceCheck::File));
    match presence_check(&Match::new("Portage", "app-editors/neovim", "neovim")) {
        PresenceCheck::Portage(c, n) => {
            assert_eq!(c, "app-editors");
            assert_eq!(n, "neovim");
        },
        _ => panic!("expected a Portage check"),
    }
    match presence_check(&Match::new("OPKG", "tool", "tool")) {
        PresenceCheck::Command(c) => assert_eq!(c, ["opkg", "status", "tool"]),
        _ => panic!("expected a command"),
    }
    assert!(matches!(presence_check(&Match::new("Nowhere", "x", "x")), PresenceCheck::Unknown));
}

#[test]
fn presence_answers_are_read() {
    let opkg = Match::new("OPKG", "tool", "tool");
    assert_eq!(presence_answer(&opkg, true, true, "Package: tool\nStatus: install ok installed\n"), Some(true));
    assert_eq!(presence_answer(&opkg, false, true, ""), None);
    assert_eq!(presence_answer(&opkg, true, false, "Status: install ok installed"), Some(false));
    let swupd = Match::new("Swupd", "editors", "editors");
    assert_eq!(presence_answer(&swupd, true, true, "editors: Installed\nother: available\n"), Some(true));
    let pipx = Match::new("Pipx", "black", "black");
    assert_eq!(presence_answer(&pipx, true, true, "{\"venvs\": {\"black\": {}}}"), Some(true));
    assert_eq!(presence_answer(&pipx, true, true, "not json"), Some(false));
    let conda = Match::new("Conda", "ruff", "ruff");
    assert_eq!(presence_answer(&conda, true, true, "[{\"name\": \"ruff\"}]"), Some(true));
    let nix = Match::new("Nix", "hello", "hello");
    assert_eq!(presence_answer(&nix, true, true, "{\"elements\": {\"hello\": {}}}"), Some(true));
    assert_eq!(presence_answer(&nix, true, true, "{\"hello\": {}}"), Some(true));
    let uv = Match::new("UV Tool", "ruff", "ruff");
    assert_eq!(presence_answer(&uv, true, true, "ruff v0.5\n- ruff\n"), Some(true));
    assert_eq!(presence_answer(&uv, true, true, "  ruff v0.5\n"), Some(false));
    assert!(portage_present(&vec!["neovim-0.10.1".to_owned()], "neovim"));
    assert!(!portage_present(&vec!["neovim-qt-1".to_owned()], "neovim"));
    assert!(slackware_present(&vec!["tool-1.0-x86_64-1".to_owned()], "tool"));
}

#[test]
fn apt_history_reports_the_newest_install() {
    let log = "Start-Date: 2024-01-01  10:00:00\nCommandline: apt install vim\nInstall: vim:amd64 (9.0), vim-runtime:amd64 (9.0)\nEnd-Date: x\n\nStart-Date: 2024-02-01\nCommandline: apt remove vim\nRemove: vim:amd64 (9.0)\n";
    assert_eq!(blocks_reversed("a\n\nb\n\n\nc").len(), 3);
    assert_eq!(
        apt_history(&vec![log.to_owned()], "vim"),
        Some("APT history on 2024-01-01  10:00:00: apt install vim".to_owned())
    );
    assert_eq!(apt_history(&vec![log.to_owned()], "emacs"), None);
}

#[test]
fn pacman_log_keeps_the_last_event() {
    let log = "[2024-01-01T10:00:00+0000] [ALPM] installed vim (9.0-1)\n[2024-02-01T10:00:00+0000] [ALPM] removed vim (9.0-1)\n[2024-03-01T10:00:00+0000] [ALPM] installed vim (9.1-1)\n";
    assert_eq!(
        pacman_history(&vec![log.to_owned()], "vim"),
        Some("Pacman log: installed vim on 2024-03-01T10:00:00+0000".to_owned())
    );
    let removed = "[2024-01-01T10:00:00+0000] [ALPM] installed vim (9.0-1)\n[2024-02-01T10:00:00+0000] [ALPM] removed vim (9.0-1)\n";
    assert_eq!(pacman_history(&vec![removed.to_owned()], "vim"), None);
}

#[test]
fn legacy_dnf_history_is_read() {
    assert_eq!(legacy_dnf_id("ID | Command\n  12 | install vim\n  40 | update\n"), Some("40".to_owned()));
    assert_eq!(legacy_dnf_id("nothing"), None);
    let record = legacy_dnf_record("40", "Transaction ID : 40\nCommand Line   : \nCommand Line : install vim \n");
    assert_eq!(record.id, "40");
    assert_eq!(record.command, "install vim");
}

#[test]
fn dnf5_transactions_name_the_installing_package() {
    let transaction = DnfTransaction {
        id: "7".to_owned(),
        command: String::new(),
        summary_command: "dnf5 install vim".to_owned(),
        packages: vec![
            DnfPackage { name: "vim-common".to_owned(), nevra: String::new(), action: "Install".to_owned(), reason: "Dependency".to_owned(), repository: "fedora".to_owned() },
            DnfPackage { name: String::new(), nevra: "vim-enhanced-2:9.1-1.x86_64".to_owned(), action: "Install".to_owned(), reason: "User".to_owned(), repository: "updates".to_owned() },
        ],
        groups: vec![("Install".to_owned(), "editors".to_owned()), ("Remove".to_owned(), "old".to_owned())],
        environments: Vec::new(),
    };
    let record = dnf_transaction_record(&transaction, "vim-enhanced.x86_64").expect("record");
    assert_eq!(record.command, "dnf5 install vim");
    assert_eq!(record.reason, "User");
    assert_eq!(record.groups, vec!["editors".to_owned()]);
    assert!(dnf_transaction_record(&transaction, "emacs").is_none());
}

#[test]
fn dependency_parents_are_read() {
    assert_eq!(
        apt_reverse_depends("libfoo\nReverse Depends:\n  app\n  |alt\n  other:amd64\n"),
        vec!["libfoo".to_owned(), "app".to_owned(), "other".to_owned()]
    );
    assert_eq!(pacman_required_by("Name : zlib\nRequired By : a  b\n"), vec!["a".to_owned(), "b".to_owned()]);
    assert_eq!(pacman_required_by("Name : zlib\nRequired By : None\n"), Vec::<String>::new());
    assert_eq!(apk_parent(&vec!["zlib".to_owned(), "curl".to_owned()], "zlib"), Some("curl requires it".to_owned()));
    assert_eq!(xbps_parent(&vec!["curl-8.0_1".to_owned()]), Some("curl requires it".to_owned()));
    assert_eq!(xbps_parent(&Vec::new()), None);
}

#[test]
fn appstream_components_lead_to_packages() {
    let bytes = br#"<components><component><id>org.a.App</id><name>App</name><pkgname>app-pkg</pkgname><binary>/usr/bin/app</binary></component><component><id>org.b.Other</id></component></components>"#;
    let found = parse_appstream(bytes, Some("app"));
    assert_eq!(found.len(), 1);
    assert_eq!(component_commands(&found[0]), vec!["app".to_owned()]);
    let installed = vec![Match::new("DNF", "app-pkg.x86_64", "app-pkg"), Match::new("DNF", "lib", "lib")];
    let owners = package_matches(&installed, "app-pkg");
    assert_eq!(owners.len(), 1);
    let named = with_component(owners[0].clone(), &found[0]);
    assert_eq!(named.name, "App");
    assert_eq!(named.evidence, "AppStream component org.a.App");
}

#[test]
fn decoration_marks_roles_then_explains() {
    let mut items = vec![Match::new("Standalone", "/home/me/bin/t", "t")];
    let roles = RoleFacts { dnf: None, apt_auto: None, zypper_explicit: None, yum_explicit: None };
    let reasons = vec![ReasonFacts {
        history: None,
        dnf_record: None,
        dependency_cause: None,
        snap_info: String::new(),
        groups: Vec::new(),
        environments: Vec::new(),
    }];
    decorate(&mut items, &roles, &reasons);
    assert!(items[0].reason.contains("original source is unknown"));
}
