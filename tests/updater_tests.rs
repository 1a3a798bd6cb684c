use updater::job::{FailureKind, Outcome, ProcessExit, UpdateManager};
use updater::scan::{is_whitespace, parse_scan_output, PendingUpdate};
use updater::update_row::{CandidateState, RowId, UpdateRow};
use updater::window::{ClearPolicy, Status, UpdaterWindow};

fn pairs(v: &[PendingUpdate]) -> Vec<(String, String)> {
    v.iter().map(|p| (p.name.clone(), p.version.clone())).collect()
}

fn success(stdout: &str) -> Outcome {
    Outcome::Success { stdout: stdout.to_string(), stderr: String::new() }
}

fn failure() -> Outcome {
    Outcome::Failure { kind: FailureKind::NonzeroExit, detail: "exit status 1".to_string() }
}

fn row_names(w: &UpdaterWindow) -> Vec<String> {
    w.rows().iter().map(|r| r.package().to_string()).collect()
}

/// A window whose list holds one row for each line of `stdout`.
fn scanned(stdout: &str) -> UpdaterWindow {
    let mut w = UpdaterWindow::new();
    let _ = w.check_for_updates();
    w.handle_update_result(success(stdout));
    w
}

fn id_of(w: &UpdaterWindow, name: &str) -> RowId {
    w.rows().iter().find(|r| r.package() == name).expect("row present").id()
}

#[test]
fn parse_two_records_in_order() {
    let got = parse_scan_output("vim 9.1.0\nbash 5.2\n");
    assert_eq!(
        pairs(&got),
        vec![("vim".to_string(), "9.1.0".to_string()), ("bash".to_string(), "5.2".to_string())]
    );
}

#[test]
fn scan_of_two_records_lists_two_rows() {
    let w = scanned("vim 9.1.0\nbash 5.2\n");
    assert_eq!(w.status(), Status::UpdatesFound);
    assert_eq!(w.status().text(), "Updates found");
    assert_eq!(row_names(&w), vec!["vim".to_string(), "bash".to_string()]);
    assert_eq!(w.rows()[0].version(), "9.1.0");
    assert_eq!(w.rows()[1].version(), "5.2");
    for r in w.rows() {
        assert_eq!(r.state(), CandidateState::Idle);
        assert!(r.is_enabled());
    }
}

#[test]
fn blank_output_lists_nothing() {
    for out in ["", "\n", "\n\n", "   \n\t\n", " \r\n  ", "\u{3000}\n\u{a0}"] {
        assert!(parse_scan_output(out).is_empty(), "output {:?}", out);
        let w = scanned(out);
        assert!(w.rows().is_empty());
        assert_eq!(w.status(), Status::UpToDate);
        assert_eq!(w.status().text(), "System up to date");
    }
}

#[test]
fn record_with_name_and_version() {
    let got = parse_scan_output("foo 1.2.3");
    assert_eq!(pairs(&got), vec![("foo".to_string(), "1.2.3".to_string())]);
}

#[test]
fn record_with_name_alone_has_empty_version() {
    let got = parse_scan_output("foo");
    assert_eq!(pairs(&got), vec![("foo".to_string(), String::new())]);
    let got = parse_scan_output("a 1\nfoo\n\nb 2");
    assert_eq!(pairs(&got)[1], ("foo".to_string(), String::new()));
}

#[test]
fn record_takes_first_and_last_token() {
    let got = parse_scan_output("  linux 6.9.1-1 -> 6.9.2-1  \r\n\tzlib\t1:1.3-1 -> 1:1.3.1-1\n");
    assert_eq!(
        pairs(&got),
        vec![
            ("linux".to_string(), "6.9.2-1".to_string()),
            ("zlib".to_string(), "1:1.3.1-1".to_string())
        ]
    );
}

#[test]
fn record_keeps_non_ascii_tokens() {
    let got = parse_scan_output("paquet-é 2.0\u{2003}3.0ü\n");
    assert_eq!(pairs(&got), vec![("paquet-é".to_string(), "3.0ü".to_string())]);
}

#[test]
fn whitespace_classes() {
    for c in ['\t', '\n', '\u{b}', '\u{c}', '\r', ' ', '\u{85}', '\u{a0}', '\u{1680}', '\u{2000}', '\u{200a}', '\u{2028}', '\u{2029}', '\u{202f}', '\u{205f}', '\u{3000}'] {
        assert!(is_whitespace(c), "{:?}", c);
        assert!(c.is_whitespace());
    }
    for c in ['a', '-', '\u{0}', '\u{200b}', '\u{1f}', 'é', '\u{feff}'] {
        assert!(!is_whitespace(c), "{:?}", c);
        assert!(!c.is_whitespace());
    }
}

#[test]
fn failed_scan_reads_up_to_date() {
    let mut w = scanned("vim 9.1.0\n");
    let _ = w.check_for_updates();
    w.handle_update_result(Outcome::Failure {
        kind: FailureKind::LaunchError,
        detail: "No such file or directory".to_string(),
    });
    assert!(w.rows().is_empty());
    assert_eq!(w.status(), Status::UpToDate);
}

#[test]
fn check_for_updates_clears_at_once() {
    let mut w = scanned("vim 9.1.0\nbash 5.2\n");
    let job = w.check_for_updates();
    assert_eq!(w.status(), Status::Checking);
    assert_eq!(w.status().text(), "Checking...");
    assert!(w.rows().is_empty());
    assert_eq!(job.program, "checkupdates");
    assert!(job.args.is_empty());
}

#[test]
fn install_failure_keeps_row_failed() {
    let mut w = scanned("vim 9.1.0\nbash 5.2\n");
    let vim = id_of(&w, "vim");
    let job = w.start_install(vim).expect("install starts");
    assert_eq!(job.args.last().map(|s| s.as_str()), Some("vim"));
    w.finish_install(vim, &failure());
    assert_eq!(row_names(&w), vec!["vim".to_string(), "bash".to_string()]);
    let row = &w.rows()[0];
    assert_eq!(row.state(), CandidateState::Failed);
    assert!(row.is_enabled());
    assert!(row.label().contains("vim"));
    assert_eq!(row.label(), "vim - Error, read the log");
    assert_eq!(row.button_label(), "Update");
}

#[test]
fn install_success_removes_only_that_row() {
    let mut w = scanned("vim 9.1.0\nbash 5.2\ngit 2.45\n");
    let bash = id_of(&w, "bash");
    let _ = w.start_install(bash).expect("install starts");
    w.finish_install(bash, &success("installed"));
    assert_eq!(row_names(&w), vec!["vim".to_string(), "git".to_string()]);
    for r in w.rows() {
        assert_eq!(r.state(), CandidateState::Idle);
        assert!(r.is_enabled());
    }
    assert_eq!(w.rows()[0].version(), "9.1.0");
    assert_eq!(w.rows()[1].version(), "2.45");
    assert_eq!(w.find_row(bash), None);
}

#[test]
fn install_start_marks_row_installing() {
    let mut w = scanned("vim 9.1.0\n");
    let vim = id_of(&w, "vim");
    let job = w.start_install(vim).expect("install starts");
    assert_eq!(job.program, "pkexec");
    assert_eq!(job.args, vec!["pacman", "-y", "-S", "--noconfirm", "vim"]);
    let row = &w.rows()[0];
    assert_eq!(row.state(), CandidateState::Installing);
    assert!(!row.is_enabled());
    assert_eq!(row.button_label(), "Updating...");
    assert_eq!(row.label(), "vim - 9.1.0");
    assert!(w.start_install(vim).is_none());
}

#[test]
fn install_retry_after_failure() {
    let mut w = scanned("vim 9.1.0\n");
    let vim = id_of(&w, "vim");
    let _ = w.start_install(vim).expect("install starts");
    w.finish_install(vim, &failure());
    assert!(w.start_install(vim).is_some());
    assert_eq!(w.rows()[0].state(), CandidateState::Installing);
    w.finish_install(vim, &success(""));
    assert!(w.rows().is_empty());
}

#[test]
fn stale_row_is_left_alone() {
    let mut w = scanned("vim 9.1.0\n");
    let old_vim = id_of(&w, "vim");
    let _ = w.start_install(old_vim).expect("install starts");
    let _ = w.check_for_updates();
    w.handle_update_result(success("vim 9.1.0\n"));
    assert_ne!(id_of(&w, "vim"), old_vim);
    w.finish_install(old_vim, &success(""));
    assert_eq!(row_names(&w), vec!["vim".to_string()]);
    assert!(w.start_install(old_vim).is_none());
    assert_eq!(w.find_row(old_vim), None);
}

#[test]
fn update_all_disables_every_row() {
    let mut w = scanned("vim 9.1.0\nbash 5.2\n");
    let job = w.update_all();
    assert_eq!(job.program, "pkexec");
    assert_eq!(job.args, vec!["pacman", "-Syu", "--noconfirm"]);
    assert_eq!(w.status(), Status::UpdatingAll);
    assert_eq!(w.status().text(), "Updating All...");
    assert!(!w.update_all_enabled());
    assert_eq!(w.rows().len(), 2);
    for r in w.rows() {
        assert!(!r.is_enabled());
    }
    let vim = id_of(&w, "vim");
    assert!(w.start_install(vim).is_none());
}

#[test]
fn update_all_success_empties_list() {
    let mut w = scanned("vim 9.1.0\nbash 5.2\n");
    assert_eq!(w.rows().len(), 2);
    let _ = w.update_all();
    w.finish_update_all(&success("done"));
    assert!(w.rows().is_empty());
    assert_eq!(w.status(), Status::UpdateSuccessful);
    assert_eq!(w.status().text(), "Update Successful");
    assert!(w.update_all_enabled());
}

#[test]
fn update_all_failure_empties_list() {
    let mut w = scanned("vim 9.1.0\nbash 5.2\n");
    let _ = w.update_all();
    w.finish_update_all(&failure());
    assert!(w.rows().is_empty());
    assert_eq!(w.status(), Status::UpdateFailed);
    assert_eq!(w.status().text(), "Update Failed");
    assert!(w.update_all_enabled());
}

#[test]
fn update_all_keeps_installing_rows_when_asked() {
    let mut w = scanned("vim 9.1.0\nbash 5.2\n");
    w.set_clear_policy(ClearPolicy::UnlessInstalling);
    assert_eq!(w.clear_policy(), ClearPolicy::UnlessInstalling);
    let vim = id_of(&w, "vim");
    let _ = w.start_install(vim).expect("install starts");
    let _ = w.update_all();
    w.finish_update_all(&success(""));
    assert_eq!(row_names(&w), vec!["vim".to_string(), "bash".to_string()]);
    assert_eq!(w.rows()[0].state(), CandidateState::Installing);
    assert!(!w.rows()[0].is_enabled());
    assert!(w.rows()[1].is_enabled());
    assert!(w.update_all_enabled());
}

#[test]
fn update_all_policy_clears_without_installs() {
    let mut w = scanned("vim 9.1.0\nbash 5.2\n");
    w.set_clear_policy(ClearPolicy::UnlessInstalling);
    let _ = w.update_all();
    w.finish_update_all(&success(""));
    assert!(w.rows().is_empty());
}

#[test]
fn clear_list_empties_rows() {
    let mut w = scanned("vim 9.1.0\nbash 5.2\n");
    w.clear_list();
    assert!(w.rows().is_empty());
    assert_eq!(w.status(), Status::UpdatesFound);
}

#[test]
fn new_window_is_idle() {
    let w = UpdaterWindow::new();
    assert_eq!(w.status(), Status::Idle);
    assert_eq!(w.status().text(), "");
    assert!(w.rows().is_empty());
    assert!(w.update_all_enabled());
    assert_eq!(w.clear_policy(), ClearPolicy::Always);
}

#[test]
fn disable_all_row_buttons_keeps_states() {
    let mut w = scanned("vim 9.1.0\nbash 5.2\n");
    let vim = id_of(&w, "vim");
    let _ = w.start_install(vim);
    w.disable_all_row_buttons();
    assert_eq!(w.rows()[0].state(), CandidateState::Installing);
    assert_eq!(w.rows()[1].state(), CandidateState::Idle);
    assert!(w.rows().iter().all(|r| !r.is_enabled()));
    assert_eq!(w.status(), Status::UpdatesFound);
}

#[test]
fn process_launch_error_is_failure() {
    match Outcome::from_process(Err("permission denied".to_string())) {
        Outcome::Failure { kind, detail } => {
            assert_eq!(kind, FailureKind::LaunchError);
            assert_eq!(detail, "permission denied");
        }
        Outcome::Success { .. } => panic!("expected a failure"),
    }
}

#[test]
fn process_nonzero_exit_is_failure() {
    let run = ProcessExit { success: false, stdout: "out".to_string(), stderr: "err".to_string() };
    let o = Outcome::from_process(Ok(run));
    assert!(!o.succeeded());
    match o {
        Outcome::Failure { kind, detail } => {
            assert_eq!(kind, FailureKind::NonzeroExit);
            assert_eq!(detail, "err");
        }
        Outcome::Success { .. } => panic!("expected a failure"),
    }
}

#[test]
fn process_zero_exit_is_success() {
    let run = ProcessExit { success: true, stdout: "out".to_string(), stderr: "warn".to_string() };
    let o = Outcome::from_process(Ok(run));
    assert!(o.succeeded());
    match o {
        Outcome::Success { stdout, stderr } => {
            assert_eq!(stdout, "out");
            assert_eq!(stderr, "warn");
        }
        Outcome::Failure { .. } => panic!("expected a success"),
    }
}

#[test]
fn manager_jobs() {
    let scan = UpdateManager::check_updates();
    assert_eq!(scan.program, "checkupdates");
    assert!(scan.args.is_empty());
    let one = UpdateManager::install_package("firefox");
    assert_eq!(one.program, "pkexec");
    assert_eq!(one.args, vec!["pacman", "-y", "-S", "--noconfirm", "firefox"]);
    let all = UpdateManager::upgrade_all();
    assert_eq!(all.program, "pkexec");
    assert_eq!(all.args, vec!["pacman", "-Syu", "--noconfirm"]);
}

#[test]
fn row_labels() {
    let id = RowId { generation: 3, index: 0 };
    let mut r = UpdateRow::new(id, "vim".to_string(), "9.1.0".to_string());
    assert_eq!(r.id(), id);
    assert_eq!(r.label(), "vim - 9.1.0");
    assert_eq!(r.button_label(), "Update");
    let job = r.begin_install();
    assert_eq!(job.args.last().map(|s| s.as_str()), Some("vim"));
    assert_eq!(r.button_label(), "Updating...");
    r.mark_failed();
    assert_eq!(r.label(), "vim - Error, read the log");
    r.set_enabled(false);
    assert!(!r.is_enabled());
}
