use std::io::Write;
use uninstall::archive::{appstream_document, history_text, is_gzipped_path};
use uninstall::cleanup::select_user_data;
use uninstall::owner::{owner_search_start, owner_step, OwnerAnswer, OwnerNext, OwnerSearch};
use uninstall::flow::{
    execution_start, execution_step, session_start, session_step, AbortReason, ExecAction, ExecEvent,
    ExecState, SessionAction, SessionEvent, SessionState,
};
use uninstall::json::{
    brew_records, cargo_installs, conda_packages, conda_profiles, dnf5_summaries, dnf5_transaction,
    gearlever_entries, integer_text, layered_packages, npm_dependencies, pipx_environments,
};
use uninstall::model::{Impact, Match};
use uninstall::provenance::root_path;

fn exec(events: Vec<ExecEvent>, has_data: bool, items: usize) -> Vec<ExecAction> {
    let (mut state, first): (ExecState, ExecAction) = execution_start("fp".to_owned(), has_data, items);
    let mut actions = vec![first];
    for event in events {
        let (next, action) = execution_step(state, event);
        state = next;
        actions.push(action);
    }
    actions
}

#[test]
fn execution_removes_data_after_successful_removals() {
    let actions = exec(
        vec![
            ExecEvent::Revalidated(Ok(())),
            ExecEvent::Replanned("fp".to_owned()),
            ExecEvent::Prepared(Ok(1)),
            ExecEvent::BatchDone(true),
            ExecEvent::DataDone(true),
            ExecEvent::StillPresent(Some(false)),
        ],
        true,
        1,
    );
    assert!(matches!(actions[0], ExecAction::Revalidate));
    assert!(matches!(actions[1], ExecAction::Replan));
    assert!(matches!(actions[2], ExecAction::Prepare));
    assert!(matches!(actions[3], ExecAction::RunBatch));
    assert!(matches!(actions[4], ExecAction::RemoveData));
    assert!(matches!(actions[5], ExecAction::Check { kept_data: false }));
    assert!(matches!(actions[6], ExecAction::Finish(0)));
}

#[test]
fn execution_keeps_data_after_a_failed_removal() {
    let actions = exec(
        vec![
            ExecEvent::Revalidated(Ok(())),
            ExecEvent::Replanned("fp".to_owned()),
            ExecEvent::Prepared(Ok(2)),
            ExecEvent::BatchDone(false),
            ExecEvent::BatchDone(true),
            ExecEvent::StillPresent(Some(false)),
        ],
        true,
        1,
    );
    assert!(matches!(actions[4], ExecAction::RunBatch));
    assert!(matches!(actions[5], ExecAction::Check { kept_data: true }));
    assert!(matches!(actions[6], ExecAction::Finish(1)));
}

#[test]
fn execution_stops_when_the_transaction_changed() {
    let actions = exec(
        vec![ExecEvent::Revalidated(Ok(())), ExecEvent::Replanned("other".to_owned()), ExecEvent::Prepared(Ok(1))],
        false,
        1,
    );
    assert!(matches!(actions[2], ExecAction::Abort(AbortReason::Changed)));
    assert!(matches!(actions[3], ExecAction::Finish(1)));
    let refused = exec(vec![ExecEvent::Revalidated(Err("gone".to_owned()))], false, 1);
    assert!(matches!(&refused[1], ExecAction::Abort(AbortReason::Invalid(message)) if message == "gone"));
}

#[test]
fn execution_fails_when_an_item_is_still_installed() {
    let actions = exec(
        vec![
            ExecEvent::Revalidated(Ok(())),
            ExecEvent::Replanned("fp".to_owned()),
            ExecEvent::Prepared(Ok(1)),
            ExecEvent::BatchDone(true),
            ExecEvent::StillPresent(Some(true)),
            ExecEvent::StillPresent(None),
        ],
        false,
        2,
    );
    assert!(matches!(actions[4], ExecAction::Check { kept_data: false }));
    assert!(matches!(actions[5], ExecAction::Check { kept_data: false }));
    assert!(matches!(actions[6], ExecAction::Finish(1)));
}

fn session(events: Vec<SessionEvent>, selected: &Vec<Match>) -> Vec<SessionAction> {
    let mut state: SessionState = session_start();
    let mut actions = Vec::new();
    for event in events {
        let (next, action) = session_step(state, event, selected);
        state = next;
        actions.push(action);
    }
    actions
}

#[test]
fn blocked_plans_end_the_session() {
    let selected = vec![Match::new("APT", "tool", "tool")];
    let actions = session(vec![SessionEvent::Planned(Impact::Blocked, "a".to_owned())], &selected);
    assert!(matches!(actions[0], SessionAction::Exit(1)));
    let actions = session(
        vec![
            SessionEvent::Planned(Impact::Low, "a".to_owned()),
            SessionEvent::DataChosen { cleanup: true, outside: false },
            SessionEvent::Replanned(Impact::Blocked, "b".to_owned()),
            SessionEvent::Shown,
        ],
        &selected,
    );
    assert!(matches!(actions[0], SessionAction::ChooseData));
    assert!(matches!(actions[1], SessionAction::Replan));
    assert!(matches!(actions[2], SessionAction::ShowPlan));
    assert!(matches!(actions[3], SessionAction::Exit(1)));
}

#[test]
fn confirmation_answers_decide_the_removal() {
    let selected = vec![Match::new("APT", "tool", "tool")];
    let ask = |answer: &str, impact: Impact| {
        session(
            vec![
                SessionEvent::Planned(impact, "a".to_owned()),
                SessionEvent::DataChosen { cleanup: false, outside: false },
                SessionEvent::Answered(answer.to_owned()),
            ],
            &selected,
        )
    };
    assert!(matches!(ask("", Impact::Low)[2], SessionAction::Cancel));
    assert!(matches!(ask("yes", Impact::Low)[2], SessionAction::Execute));
    assert!(matches!(ask("y", Impact::High)[2], SessionAction::Cancel));
    assert!(matches!(ask("REMOVE tool", Impact::High)[2], SessionAction::Execute));
    assert!(matches!(ask("", Impact::High)[2], SessionAction::Cancel));
}

#[test]
fn an_unchanged_plan_is_not_shown_again() {
    let selected = vec![Match::new("APT", "tool", "tool")];
    let actions = session(
        vec![
            SessionEvent::Planned(Impact::Caution, "a".to_owned()),
            SessionEvent::DataChosen { cleanup: true, outside: false },
            SessionEvent::Replanned(Impact::Caution, "a".to_owned()),
        ],
        &selected,
    );
    assert!(matches!(actions[2], SessionAction::Ask));
}

#[test]
fn dependency_search_reaches_a_root_three_steps_up() {
    let explicit = vec!["desktop".to_owned()];
    let path = root_path("leaf", &explicit, |package: &str, _first: bool| {
        Some(match package {
            "leaf" => vec!["lib".to_owned(), "middle".to_owned()],
            "middle" => vec!["app".to_owned()],
            "app" => vec!["desktop".to_owned()],
            _ => Vec::new(),
        })
    })
    .expect("root path");
    assert_eq!(path, ["desktop", "app", "middle", "leaf"]);
}

#[test]
fn json_readers_pick_their_records() {
    let brew = r#"{"formulae":[{"name":"wget","version":"1","tap":"homebrew/core","installed":[{"version":"1.2","installed_on_request":true}]}],
        "casks":[{"token":"firefox","version":"120"}]}"#;
    let records = brew_records(brew);
    assert_eq!(records.len(), 2);
    assert_eq!(records[0].id.as_deref(), Some("wget"));
    assert_eq!(records[0].version.as_deref(), Some("1.2"));
    assert_eq!(records[0].on_request, Some(true));
    assert!(records[1].cask);
    assert_eq!(records[1].id.as_deref(), Some("firefox"));
    assert_eq!(records[1].version.as_deref(), Some("120"));
    assert!(brew_records("not json").is_empty());

    let npm = npm_dependencies(r#"{"dependencies":{"@scope/tool":{"version":"2.0.0","resolved":"x"}}}"#);
    assert_eq!(npm, vec![("@scope/tool".to_owned(), Some("2.0.0".to_owned()), Some("x".to_owned()))]);

    let cargo = cargo_installs(r#"{"installs":{"ripgrep 14.0.0 (registry+https://x/y)":{"bins":["rg"]}}}"#);
    assert_eq!(cargo, vec![("ripgrep 14.0.0 (registry+https://x/y)".to_owned(), vec!["rg".to_owned()])]);

    assert_eq!(conda_profiles(r#"{"envs":["/opt/conda","/home/me/env"]}"#), ["/opt/conda", "/home/me/env"]);
    let packages = conda_packages(r#"[{"name":"ruff","version":"0.1","channel":"conda-forge"}]"#);
    assert_eq!(packages, vec![(Some("ruff".to_owned()), Some("0.1".to_owned()), Some("conda-forge".to_owned()))]);

    let pipx = pipx_environments(
        r#"{"venvs":{"black":{"metadata":{"main_package":{"package":"black","apps":["black","blackd"],"package_version":"24.1"}}}}}"#,
    );
    assert_eq!(pipx.len(), 1);
    assert_eq!(pipx[0].environment, "black");
    assert_eq!(pipx[0].apps, ["black", "blackd"]);
    assert_eq!(pipx[0].version.as_deref(), Some("24.1"));

    let gear = gearlever_entries(r#"{"installed":[{"name":"App","path":"/home/me/App.AppImage","source_url":"https://s"}]}"#);
    assert_eq!(gear[0].0.as_deref(), Some("App"));
    assert_eq!(gear[0].3.as_deref(), Some("https://s"));

    let layered = layered_packages(r#"{"deployments":[{"requested-packages":["vim"],"requested-local-packages":["tool"]},{}]}"#);
    assert_eq!(layered, Some(vec!["vim".to_owned(), "tool".to_owned()]));
    assert_eq!(layered_packages(r#"{"deployments":[]}"#), None);
}

#[test]
fn dnf5_history_is_read_newest_first() {
    let summaries = dnf5_summaries(r#"[{"id":3,"command_line":"dnf install a"},{"id":7}]"#).expect("array");
    assert_eq!(summaries, vec![(Some(7), String::new()), (Some(3), "dnf install a".to_owned())]);
    assert!(dnf5_summaries("{}").is_none());
    let details = r#"[{"description":"install tool","packages":[{"name":"tool","nevra":"tool-1.x86_64","action":"Install","reason":"User","repo_id":"fedora"}],
        "groups":[{"action":"Install","id":"dev"}]}]"#;
    let transaction = dnf5_transaction(7, "dnf install tool", details).expect("object");
    assert_eq!(transaction.id, "7");
    assert_eq!(transaction.command, "install tool");
    assert_eq!(transaction.packages[0].repository, "fedora");
    assert_eq!(transaction.groups, vec![("Install".to_owned(), "dev".to_owned())]);
    assert!(dnf5_transaction(1, "", "[]").is_none());
    assert_eq!(integer_text(-42), "-42");
}

fn gzip(text: &[u8]) -> Vec<u8> {
    let mut encoder = flate2::write::GzEncoder::new(Vec::new(), flate2::Compression::default());
    encoder.write_all(text).expect("compress");
    encoder.finish().expect("compress")
}

#[test]
fn history_logs_are_decompressed_by_name() {
    let log = b"Start-Date: 2024-01-01\nCommandline: apt install tool\n";
    assert_eq!(history_text("/var/log/apt/history.log.1.gz", &gzip(log)), String::from_utf8_lossy(log));
    assert_eq!(history_text("/var/log/apt/history.log", log), String::from_utf8_lossy(log));
    assert!(is_gzipped_path("/var/log/a.gz"));
    assert!(!is_gzipped_path("/var/log/.gz"));
    assert!(!is_gzipped_path("/var/log/a.gzip"));
}

#[test]
fn appstream_documents_are_read_within_the_limit() {
    let xml = b"<components><component/></components>";
    assert_eq!(appstream_document("/usr/share/app-info/xmls/x.xml.gz", &gzip(xml)), Some(xml.to_vec()));
    assert_eq!(appstream_document("/usr/share/metainfo/x.xml", xml), Some(xml.to_vec()));
    assert_eq!(appstream_document("/usr/share/app-info/xmls/x.xml.gz", b"not gzip"), None);
}

#[test]
fn user_data_is_selected_from_safe_roots_by_exact_name() {
    let listings = vec![
        (
            "/home/me/.config".to_owned(),
            true,
            vec![
                ("/home/me/.config/tool".to_owned(), "tool".to_owned()),
                ("/home/me/.config/toolbox".to_owned(), "toolbox".to_owned()),
                ("/home/me/.config/Tool.conf".to_owned(), "Tool.conf".to_owned()),
                ("/home/me/.config/owned".to_owned(), "tool".to_owned()),
            ],
        ),
        ("/etc".to_owned(), true, vec![("/etc/tool".to_owned(), "tool".to_owned())]),
        ("/home/me/.cache".to_owned(), false, vec![("/home/me/.cache/tool".to_owned(), "tool".to_owned())]),
    ];
    let found = select_user_data(
        &listings,
        &vec!["/home/me/.config/owned".to_owned()],
        &vec!["tool".to_owned()],
        "/home/me",
        None,
    );
    assert_eq!(found, ["/home/me/.config/Tool.conf", "/home/me/.config/tool"]);
}

#[test]
fn owner_search_asks_in_order_and_stops_at_the_first_owner() {
    let mut stage = owner_search_start();
    let mut asked = vec![stage];
    while let OwnerNext::Ask(next) = owner_step(stage, OwnerAnswer::NotOwned) {
        stage = next;
        asked.push(stage);
    }
    assert_eq!(asked.len(), 13);
    assert_eq!(asked[1], OwnerSearch::Dpkg);
    assert_eq!(asked[12], OwnerSearch::Standalone);
    assert_eq!(owner_step(OwnerSearch::Pacman, OwnerAnswer::Owned), OwnerNext::Report);
    assert_eq!(owner_step(OwnerSearch::Rpm, OwnerAnswer::BaseImage), OwnerNext::Nothing);
}
