use blaze_downloader::{
    destination_file_name, normalize_arg, plan_run, push_decimal, render_help, shell_command,
    starts_with_dash, valid_flags, Config, Downloadable, Flag, Orchestrator, Outcome,
    ProgramError, RunPlan, HELP_BANNER, HELP_DESCRIPTION, HELP_DONE, HELP_LONG_FORM,
    HELP_SHORT_FORM, RUN_DONE,
};

fn args(list: &[&str]) -> Vec<String> {
    list.iter().map(|s| s.to_string()).collect()
}

fn orchestrator_for(list: &[&str]) -> Orchestrator {
    let config = Config::from(args(list)).ok().expect("arguments should parse");
    match plan_run(config) {
        RunPlan::Download(o) => o,
        RunPlan::Help(_) => panic!("no help flag was given"),
    }
}

#[test]
fn single_url_becomes_one_target() {
    let config = Config::from(args(&["https://example.com/file.zip"])).ok().unwrap();
    assert!(config.get_flags().is_empty());
    let targets = config.get_downloadables();
    assert_eq!(targets.len(), 1);
    assert_eq!(targets[0].url(), "https://example.com/file.zip");
    assert_eq!(destination_file_name(targets[0].url()), "file.zip");
}

#[test]
fn url_is_trimmed_lowercased_and_serialized() {
    let config = Config::from(args(&["  HTTPS://Example.COM/A  "])).ok().unwrap();
    let targets = config.get_downloadables();
    assert_eq!(targets[0].url(), "https://example.com/a");
    let bare = Config::from(args(&["https://example.com"])).ok().unwrap();
    assert_eq!(bare.get_downloadables()[0].url(), "https://example.com/");
}

#[test]
fn urls_and_flags_keep_their_order_without_dedup() {
    let config = Config::from(args(&[
        "https://a.test/x",
        "-h",
        "https://a.test/y",
        "--HELP",
        "https://a.test/x",
    ]))
    .ok()
    .unwrap();
    assert_eq!(config.get_flags(), &vec![Flag::Help, Flag::Help]);
    let urls: Vec<String> = config
        .get_downloadables()
        .iter()
        .map(|d| d.url().to_string())
        .collect();
    assert_eq!(urls, vec!["https://a.test/x", "https://a.test/y", "https://a.test/x"]);
}

#[test]
fn invalid_url_fails_to_parse() {
    let err = Config::from(args(&["not-a-url"])).err().unwrap();
    assert!(err.msg().contains("Failed to parse url"));
    assert_eq!(err.msg(), "Failed to parse url: relative URL without a base");
}

#[test]
fn build_rejects_invalid_url() {
    let err = Downloadable::build("nothing here".to_string()).err().unwrap();
    assert!(err.msg().starts_with("Failed to parse url: "));
    let ok = Downloadable::build("http://a.test/b".to_string()).ok().unwrap();
    assert_eq!(ok.url(), "http://a.test/b");
}

#[test]
fn first_error_wins() {
    let err = Config::from(args(&["https://a.test/x", "--nope", "bad"])).err().unwrap();
    assert_eq!(err.msg(), "--nope is not a valid flag");
}

#[test]
fn unknown_flag_is_rejected() {
    let err = Config::from(args(&["-V"])).err().unwrap();
    assert_eq!(err.msg(), "-v is not a valid flag");
    let err = Config::from(args(&["-"])).err().unwrap();
    assert_eq!(err.msg(), "- is not a valid flag");
}

#[test]
fn empty_arguments_give_empty_config() {
    let config = Config::from(Vec::new()).ok().unwrap();
    assert!(config.get_flags().is_empty());
    assert!(config.get_downloadables().is_empty());
}

#[test]
fn short_help_shows_help_and_downloads_nothing() {
    let config = Config::from(args(&["-h"])).ok().unwrap();
    match plan_run(config) {
        RunPlan::Help(text) => {
            assert!(text.contains(HELP_LONG_FORM));
            assert!(text.contains(HELP_SHORT_FORM));
            assert!(text.contains(HELP_DESCRIPTION));
        }
        RunPlan::Download(_) => panic!("help must suppress downloads"),
    }
    assert_eq!(HELP_DONE, "END OF HELP SECTION");
}

#[test]
fn help_takes_precedence_over_urls() {
    let config = Config::from(args(&["https://a.test/x", "https://a.test/y", "-h"])).ok().unwrap();
    assert!(matches!(plan_run(config), RunPlan::Help(_)));
}

#[test]
fn help_text_lists_the_flag_table() {
    let expected = format!(
        "{}\n\nFlags:\n1. --help | -h: {}\n\n",
        HELP_BANNER, HELP_DESCRIPTION
    );
    assert_eq!(render_help(), expected);
    assert_eq!(render_help().matches("--help").count(), 1);
    assert_eq!(render_help().matches(HELP_DESCRIPTION).count(), 1);
}

#[test]
fn handle_help_flag_without_help() {
    let config = Config::from(args(&["https://a.test/x"])).ok().unwrap();
    assert_eq!(Flag::handle_help_flag(&config), Err(()));
    let config = Config::from(args(&["--help"])).ok().unwrap();
    assert_eq!(Flag::handle_help_flag(&config), Ok(render_help()));
}

#[test]
fn flag_table_has_help() {
    let rows = valid_flags();
    assert_eq!(rows.len(), 1);
    assert_eq!(rows[0].long_form, "--help");
    assert_eq!(rows[0].short_form, "-h");
    assert_eq!(rows[0].flag, Flag::Help);
}

#[test]
fn every_target_is_dispatched_and_completion_waits_for_all() {
    let mut o = orchestrator_for(&["https://a.test/1", "https://a.test/2", "https://a.test/3"]);
    assert_eq!(o.len(), 3);
    assert_eq!(o.target(1).url(), "https://a.test/2");
    assert!(!o.is_complete());
    assert!(o.record(2, Outcome::Succeeded));
    assert!(!o.is_complete());
    assert!(o.record(0, Outcome::Failed(ProgramError::new("boom".to_string()))));
    assert!(!o.is_complete());
    assert!(o.record(1, Outcome::Succeeded));
    assert!(o.is_complete());
    assert!(matches!(o.outcomes()[0], Some(Outcome::Failed(_))));
    assert!(matches!(o.outcomes()[2], Some(Outcome::Succeeded)));
    assert_eq!(RUN_DONE, "DONE");
}

#[test]
fn repeated_or_stray_reports_change_nothing() {
    let mut o = orchestrator_for(&["https://a.test/1", "https://a.test/2"]);
    assert!(o.record(0, Outcome::Succeeded));
    assert!(!o.record(0, Outcome::Failed(ProgramError::new("late".to_string()))));
    assert!(matches!(o.outcomes()[0], Some(Outcome::Succeeded)));
    assert!(!o.record(5, Outcome::Succeeded));
    assert!(!o.is_complete());
}

#[test]
fn no_targets_is_complete_at_once() {
    let o = orchestrator_for(&[]);
    assert_eq!(o.len(), 0);
    assert!(o.is_complete());
}

#[test]
fn file_name_is_last_segment() {
    assert_eq!(destination_file_name("https://a.test/dir/report.pdf"), "report.pdf");
    assert_eq!(destination_file_name("plain"), "plain");
}

#[test]
fn file_name_falls_back_when_segment_is_empty() {
    assert_eq!(
        destination_file_name("https://a.test/dir/"),
        "file-[https://a.test/dir/]"
    );
    assert_eq!(destination_file_name(""), "file-[]");
}

#[test]
fn normalization_trims_and_lowercases() {
    assert_eq!(normalize_arg("  ABC\t"), "abc");
    assert_eq!(normalize_arg("--HELP"), "--help");
    assert!(starts_with_dash("-x"));
    assert!(!starts_with_dash(""));
    assert!(!starts_with_dash("x-"));
}

#[test]
fn shell_is_chosen_by_operating_system() {
    assert_eq!(shell_command("linux").ok(), Some(("sh", "-c")));
    assert_eq!(shell_command("windows").ok(), Some(("cmd", "/C")));
    assert_eq!(
        shell_command("macos").err().unwrap().msg(),
        "OS not supported by CLI"
    );
}

#[test]
fn decimal_rendering() {
    let mut s = String::from("n=");
    push_decimal(&mut s, 0);
    assert_eq!(s, "n=0");
    let mut t = String::new();
    push_decimal(&mut t, 1234509);
    assert_eq!(t, "1234509");
}

#[test]
fn program_error_keeps_message() {
    let e = ProgramError::new("broken".to_string());
    assert_eq!(e.msg(), "broken");
}
