use rasitop::install::{
    backup_name, command_error, install_failure, parse_arguments, pgrep_found, process_pattern, regex_escape_path,
    staged_name, status_text, InstallCommand,
};

#[test]
fn escapes_bundle_path_for_pgrep() {
    assert_eq!(regex_escape_path("/Applications/rasitop.app"), "/Applications/rasitop\\.app");
}

#[test]
fn escapes_every_extended_regex_special_character() {
    assert_eq!(regex_escape_path("a+b*(c)|[d]{e}^$?\\"), "a\\+b\\*\\(c\\)\\|\\[d\\]\\{e\\}\\^\\$\\?\\\\");
    assert_eq!(regex_escape_path("plain/path"), "plain/path");
}

fn arguments(list: &[&str]) -> Vec<String> {
    list.iter().map(|a| a.to_string()).collect()
}

#[test]
fn installer_arguments_select_dry_run_help_or_refusal() {
    assert_eq!(parse_arguments(&[]), Ok(InstallCommand::Install { dry_run: false }));
    assert_eq!(parse_arguments(&arguments(&["--dry-run"])), Ok(InstallCommand::Install { dry_run: true }));
    assert_eq!(parse_arguments(&arguments(&["--dry-run", "-h"])), Ok(InstallCommand::Help));
    assert_eq!(parse_arguments(&arguments(&["--help", "--bogus"])), Ok(InstallCommand::Help));
    assert_eq!(parse_arguments(&arguments(&["--bogus", "--help"])), Err("unknown argument: --bogus".to_string()));
    assert_eq!(parse_arguments(&arguments(&["--dry-run", "x"])), Err("unknown argument: x".to_string()));
}

#[test]
fn process_pattern_matches_the_installed_executable() {
    assert_eq!(
        process_pattern("/Applications/rasitop.app"),
        "^/Applications/rasitop\\.app/Contents/MacOS/rasitop($| )"
    );
}

#[test]
fn pgrep_exit_codes_mean_found_missing_or_failure() {
    assert_eq!(pgrep_found(Some(0)), Some(true));
    assert_eq!(pgrep_found(Some(1)), Some(false));
    assert_eq!(pgrep_found(Some(2)), None);
    assert_eq!(pgrep_found(None), None);
}

#[test]
fn command_failures_name_status_and_trimmed_stderr() {
    assert_eq!(status_text(Some(3)), "exited with status 3");
    assert_eq!(status_text(Some(-1)), "exited with status -1");
    assert_eq!(status_text(None), "terminated by signal");
    assert_eq!(
        command_error("check whether rasitop is running", Some(2), b"  bad pattern \n"),
        "check whether rasitop is running: exited with status 2: bad pattern"
    );
    assert_eq!(command_error("stop running rasitop", None, b" \n\t"), "stop running rasitop: terminated by signal");
    assert_eq!(command_error("x", Some(1), b"\xffoops"), "x: exited with status 1: \u{fffd}oops");
}

#[test]
fn temporary_bundle_names_carry_the_installer_process() {
    assert_eq!(staged_name(4242), ".rasitop.app.installing-4242");
    assert_eq!(backup_name(7), ".rasitop.app.previous-7");
}

#[test]
fn install_failures_report_a_failed_rollback() {
    assert_eq!(install_failure("/Applications/rasitop.app", "denied", None), "install /Applications/rasitop.app: denied");
    assert_eq!(
        install_failure("/Applications/rasitop.app", "denied", Some("busy")),
        "install /Applications/rasitop.app: denied; rollback failed: busy"
    );
}
