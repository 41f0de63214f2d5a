use std::time::Duration;
use uninstall::command::{CommandResult, CommandStatus};
use uninstall::model::{Impact, Match, Preview, PreviewStatus};
use uninstall::preview::{
    apk_preview, apt_preview, apt_rpm_preview, base_protected_names, build, build_group,
    conda_preview, dnf_preview, ensure_manager_present, failed, held_names, homebrew_preview,
    is_protected, kernel_names, lines_after, manager_program, opkg_preview, pacman_preview,
    portage_preview, preview_groups, preview_step, protected_entries, read_preview,
    rpm_ostree_preview, rpm_preview, xbps_preview, zypper_preview, PreviewMethod, PreviewStep,
};

fn s(v: &str) -> String {
    v.to_string()
}

fn ids(v: &[&str]) -> Vec<String> {
    v.iter().map(|x| x.to_string()).collect()
}

fn result(status: CommandStatus, stdout: &str, stderr: &str) -> CommandResult {
    CommandResult {
        status,
        code: if status == CommandStatus::Success { 0 } else { 1 },
        stdout: stdout.to_string(),
        stderr: stderr.to_string(),
        duration: Duration::from_millis(1),
    }
}

fn ok(stdout: &str) -> CommandResult {
    result(CommandStatus::Success, stdout, "")
}

#[test]
fn sections_list_their_package_names() {
    let text = "Removing:\n firefox  x86_64  128  @fedora\n===\nRemoving unused dependencies:\n libfoo x86_64 1\n\nTransaction Summary:\n dnf 1\n";
    assert_eq!(lines_after(text, &["removing:", "removing unused dependencies:"]), ids(&["firefox", "libfoo"]));
    assert_eq!(lines_after(text, &["removing unused dependencies:"]), ids(&["libfoo"]));
}

#[test]
fn dnf_dry_runs_are_read_even_when_declined() {
    let text = "Removing:\n firefox x86_64 128 @fedora\nRemoving unused dependencies:\n libfoo x86_64 1\n firefox-langpacks x 1\n\nOperation aborted.\n";
    let declined = result(CommandStatus::NonZero, text, "");
    let preview = dnf_preview(&ids(&["firefox"]), &declined, "dnf5");
    assert_eq!(preview.status, PreviewStatus::Exact);
    assert_eq!(preview.planned_removals, ids(&["firefox", "libfoo", "firefox-langpacks"]));
    assert_eq!(preview.unused_dependencies, ids(&["libfoo", "firefox-langpacks"]));
    let timed_out = result(CommandStatus::Timeout, "", "");
    let unknown = dnf_preview(&ids(&["firefox"]), &timed_out, "dnf5");
    assert_eq!(unknown.status, PreviewStatus::Unknown);
    assert_eq!(unknown.notes, ids(&["DNF removal preview timed out"]));
    let refused = result(CommandStatus::NonZero, "", "\n  No match for argument: firefox\n");
    let failure = dnf_preview(&ids(&["firefox"]), &refused, "dnf5");
    assert_eq!(failure.status, PreviewStatus::Failed);
    assert_eq!(failure.impact, Impact::Unknown);
    assert_eq!(failure.blockers, ids(&["dnf5 could not preview the removal:   No match for argument: firefox"]));
}

#[test]
fn failures_quote_the_first_diagnostic_line() {
    let long = "x".repeat(300);
    let preview = failed(&result(CommandStatus::NonZero, "", &long), "APT");
    assert_eq!(preview.blockers[0].len(), "APT could not preview the removal: ".len() + 240);
    let silent = failed(&result(CommandStatus::NonZero, "", ""), "APK");
    assert_eq!(silent.blockers, ids(&["APK could not preview the removal: no diagnostic output"]));
}

#[test]
fn apt_simulations() {
    let preview = apt_preview(&ok("Remv vim [2:9.0]\nRemv vim-runtime [2:9.0]\nInst other\n"));
    assert_eq!(preview.planned_removals, ids(&["vim", "vim-runtime"]));
    let nothing = apt_preview(&ok("0 upgraded, 0 newly installed\n"));
    assert_eq!(nothing.status, PreviewStatus::NoOp);
    assert_eq!(nothing.impact, Impact::Low);
    assert_eq!(nothing.notes, ids(&["APT reported that nothing would be removed"]));
    assert_eq!(apt_preview(&result(CommandStatus::NonZero, "", "E: no")).status, PreviewStatus::Failed);
    assert_eq!(apt_rpm_preview(&ids(&["vim"]), &ok("")).planned_removals, ids(&["vim"]));
    assert_eq!(apt_rpm_preview(&ids(&["vim"]), &result(CommandStatus::NonZero, "", "x")).status, PreviewStatus::Failed);
}

#[test]
fn pacman_rpm_and_rpm_ostree_simulations() {
    assert_eq!(pacman_preview(&ok("vim\n\n vim-runtime \n")).planned_removals, ids(&["vim", "vim-runtime"]));
    assert_eq!(pacman_preview(&ok("\n")).status, PreviewStatus::Failed);
    assert_eq!(rpm_preview(&ids(&["vim"]), &ok("")).planned_removals, ids(&["vim"]));
    let refused = rpm_preview(&ids(&["glibc"]), &result(CommandStatus::NonZero, "", " error: Failed dependencies:\n"));
    assert_eq!(refused.status, PreviewStatus::Blocked);
    assert_eq!(refused.blockers, ids(&["error: Failed dependencies:"]));
    assert_eq!(rpm_ostree_preview(&ids(&["vim"]), &ok("")).status, PreviewStatus::Exact);
    assert_eq!(homebrew_preview(&ids(&["wget"]), &ok("")).planned_removals, ids(&["wget"]));
    let homebrew = homebrew_preview(&ids(&["wget"]), &result(CommandStatus::NonZero, "", ""));
    assert_eq!(homebrew.notes, ids(&["Homebrew could not produce a reliable dry-run"]));
}

#[test]
fn zypper_plans_are_read_from_xml() {
    let first = zypper_preview(&ok("<solvable name=\"vim\" transaction=\"remove\"/><solvable name='gvim' status='erase'/>"));
    assert_eq!(first.planned_removals, ids(&["vim", "gvim"]));
    let second = zypper_preview(&ok("<solvable status=\"remove\" kind=\"package\" name=\"vim\"/>"));
    assert_eq!(second.planned_removals, ids(&["vim"]));
    let third = zypper_preview(&ok("<to-remove>\n<solvable kind=\"package\" name=\"vim\"/>\n</to-remove>"));
    assert_eq!(third.planned_removals, ids(&["vim"]));
    assert_eq!(zypper_preview(&ok("<stream/>")).status, PreviewStatus::Failed);
}

#[test]
fn apk_opkg_xbps_and_portage_simulations() {
    let apk = apk_preview(&ids(&["vim"]), &ok("(1/2) Purging vim (9.1)\n(2/2) Purging xxd (9.1)\n"));
    assert_eq!(apk.planned_removals, ids(&["vim", "xxd"]));
    assert_eq!(apk.unused_dependencies, ids(&["xxd"]));
    let fallback = apk_preview(&ids(&["vim"]), &ok("- vim 9.1\n"));
    assert_eq!(fallback.planned_removals, ids(&["vim"]));
    let opkg = opkg_preview(&ok("Removing nano (7.2) from root...\n"));
    assert_eq!(opkg.planned_removals, ids(&["nano"]));
    assert_eq!(opkg_preview(&ok("nothing\n")).status, PreviewStatus::Unknown);
    let xbps = xbps_preview(&ids(&["vim"]), &ok("vim-9.1.0_1 remove x86_64\nxxd-9.1.0_1 remove x86_64\n"));
    assert_eq!(xbps.planned_removals, ids(&["vim", "xxd"]));
    assert_eq!(xbps.unused_dependencies, ids(&["xxd"]));
    assert_eq!(xbps_preview(&ids(&["vim"]), &ok("odd\n")).notes, ids(&["XBPS did not provide a parseable removal plan"]));
    let portage = portage_preview(&ids(&["app-editors/vim"]), &ok(" >>> app-editors/vim-9.1.0\n >>> app-editors/vim-core-9.1.0\n"));
    assert_eq!(portage.planned_removals, ids(&["app-editors/vim"]));
    assert_eq!(portage_preview(&ids(&["x/y"]), &ok("")).status, PreviewStatus::Unknown);
}

#[test]
fn conda_dry_runs_must_be_json() {
    let id = s("numpy");
    assert_eq!(conda_preview(&id, &ok("{\"actions\": {}}"), "conda").planned_removals, ids(&["numpy"]));
    let invalid = conda_preview(&id, &ok("not json"), "micromamba");
    assert_eq!(invalid.notes, ids(&["micromamba did not return a valid JSON preview"]));
}

#[test]
fn dry_runs_to_ask_for() {
    let mut apt = Match::new("APT", "vim", "vim");
    apt.version = s("9");
    match preview_step(&[apt.clone()], true, None) {
        PreviewStep::Run(run) => {
            assert_eq!(run.program, "apt-get");
            assert_eq!(run.args, ids(&["--simulate", "purge", "vim"]));
            assert_eq!(run.method, PreviewMethod::Apt);
            let preview = read_preview(&run, &[apt], &ok("Remv vim [9]\n"));
            assert_eq!(preview.planned_removals, ids(&["vim"]));
        }
        PreviewStep::Ready(_) => panic!("APT needs a dry run"),
    }
    match preview_step(&[Match::new("Snap", "core", "core")], false, None) {
        PreviewStep::Ready(preview) => assert_eq!(preview.notes, ids(&["snapd does not expose a read-only removal transaction"])),
        PreviewStep::Run(_) => panic!("Snap has no dry run"),
    }
    match preview_step(&[Match::new("DNF", "vim", "vim")], false, None) {
        PreviewStep::Ready(preview) => assert_eq!(preview.notes, ids(&["DNF is unavailable"])),
        PreviewStep::Run(_) => panic!("no DNF front end"),
    }
    match preview_step(&[Match::new("Flatpak", "org.x.Y", "Y")], false, None) {
        PreviewStep::Ready(preview) => assert_eq!(preview.planned_removals, ids(&["org.x.Y"])),
        PreviewStep::Run(_) => panic!("Flatpak needs no dry run"),
    }
}

#[test]
fn groups_are_assessed_for_risk() {
    let items = vec![Match::new("APT", "vim", "vim")];
    let protected = base_protected_names();
    let mut raw = Preview::exact(ids(&["vim", "vim-runtime", "bash"]));
    raw.unused_dependencies = ids(&["vim-runtime", "vim-runtime"]);
    let assessed = build_group(&items, raw, &protected);
    assert_eq!(assessed.protected, ids(&["bash"]));
    assert_eq!(assessed.unused_dependencies, ids(&["vim-runtime"]));
    assert_eq!(assessed.impact, Impact::High);
    let mut caution = Preview::exact(ids(&["vim", "vim-runtime"]));
    caution.unused_dependencies = ids(&["vim-runtime"]);
    assert_eq!(build_group(&items, caution, &protected).impact, Impact::Caution);
    assert_eq!(build_group(&items, Preview::exact(ids(&["vim"])), &protected).impact, Impact::Low);
    assert!(is_protected("linux-image-6.1.0-amd64", &protected));
    assert!(is_protected("systemd:amd64", &protected));
    assert!(!is_protected("vim", &protected));
}

#[test]
fn selections_combine_their_groups() {
    let items = vec![Match::new("APT", "vim", "vim"), Match::new("Flatpak", "org.x.Y", "Y")];
    let groups = preview_groups(&items, &[s("Flatpak")]);
    assert_eq!(groups.len(), 2);
    assert_eq!(groups[0].items[0].backend, "APT");
    assert!(!groups[0].manager_cleanup);
    assert!(groups[1].manager_cleanup);
    let mut risky = Preview::exact(ids(&["vim", "bash"]));
    risky.impact = Impact::High;
    let combined = build(&items, &[s("Flatpak")], vec![risky, Preview::exact(ids(&["org.x.Y"]))]);
    assert_eq!(combined.impact, Impact::High);
    assert_eq!(combined.planned_removals, ids(&["bash", "org.x.Y", "vim"]));
    assert_eq!(combined.fingerprint.len(), 64);
    assert_eq!(build(&[], &[], Vec::new()).status, PreviewStatus::Blocked);
}

#[test]
fn protected_names_of_the_system() {
    assert_eq!(kernel_names(" 6.8.0 \n"), ids(&["kernel-6.8.0", "linux-image-6.8.0"]));
    assert!(kernel_names("  ").is_empty());
    assert_eq!(protected_entries("# comment\nsystemd\n  dnf  \nkernel*\n\n"), ids(&["systemd", "dnf"]));
    assert_eq!(held_names("vim:amd64\nbash\n"), ids(&["vim", "bash"]));
}

#[test]
fn managers_must_still_be_present() {
    assert_eq!(manager_program("APT", None), Ok(Some(s("apt-get"))));
    assert_eq!(manager_program("Gear Lever", None), Ok(None));
    assert!(manager_program("Container Export", None).is_err());
    let items = vec![Match::new("APT", "vim", "vim")];
    assert_eq!(ensure_manager_present(&items, None, &ids(&["apt-get"])), Ok(()));
    assert_eq!(
        ensure_manager_present(&items, None, &Vec::new()),
        Err(s("apt-get is no longer available"))
    );
}
