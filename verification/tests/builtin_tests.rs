use kennsh::builtins::{cd, exit_command, unset};
use kennsh::cmd_env::{plan_env_command, EnvOp, EnvPlan};
use kennsh::cmd_cat::{cat, cat_render_lines, CatOptions};
use kennsh::cmd_head::{head, head_take_bytes, head_take_lines, HeadCount, HeadMode};
use kennsh::error::Error;
use kennsh::orchestrate::{
    classify_builtin, error_exit_code, input_open_error, map_wait_status, output_open_plan,
    pipeline_report, pipeline_wiring, relay_plan, BuiltinKind, OpenFailure, OutputOpenMode,
    RelayAction,
};
use kennsh::syntax::OutputRedirectionKind;

fn argv(parts: &[&str]) -> Vec<String> {
    parts.iter().map(|s| s.to_string()).collect()
}

#[test]
fn cd_requests_directory_change() {
    let home = "/home/u".to_string();
    let r = cd(&argv(&["cd", "/tmp"]), &home);
    assert_eq!(r, Err(Error::DirectoryChangeRequested("/tmp".to_string())));
}

#[test]
fn cd_expands_first_tilde() {
    let home = "/home/u".to_string();
    let r = cd(&argv(&["cd", "~/x"]), &home);
    assert_eq!(r, Err(Error::DirectoryChangeRequested("/home/u/x".to_string())));
}

#[test]
fn cd_without_argument_is_an_error() {
    let home = "/home/u".to_string();
    assert!(matches!(cd(&argv(&["cd"]), &home), Err(Error::OtherError(_))));
}

#[test]
fn state_relay_cd_sole_command() {
    // The decision path of `cd /tmp` as the sole top-level command: the
    // builtin yields a request, the relay turns it into a directory
    // change for the caller and exit code 0.
    let home = String::new();
    let result = cd(&argv(&["cd", "/tmp"]), &home);
    let (action, reported) = relay_plan(result);
    assert_eq!(action, RelayAction::ChangeDirectory("/tmp".to_string()));
    assert_eq!(reported, Ok(0));
}

#[test]
fn relay_passes_ordinary_results_through() {
    let (action, reported) = relay_plan(Ok(3));
    assert_eq!(action, RelayAction::NoRelay);
    assert_eq!(reported, Ok(3));
}

#[test]
fn relay_set_and_unset() {
    let (a1, r1) = relay_plan(Err(Error::VariableSetRequested("k".into(), "v".into())));
    assert_eq!(a1, RelayAction::SetVariable("k".into(), "v".into()));
    assert_eq!(r1, Ok(0));
    let (a2, r2) = relay_plan(Err(Error::VariableUnsetRequested("k".into())));
    assert_eq!(a2, RelayAction::UnsetVariable("k".into()));
    assert_eq!(r2, Ok(0));
}

#[test]
fn exit_without_code() {
    assert_eq!(exit_command(&argv(&["exit"])), Err(Error::RequestExit(None)));
}

#[test]
fn exit_with_code() {
    assert_eq!(exit_command(&argv(&["exit", "7"])), Err(Error::RequestExit(Some(7))));
    assert_eq!(exit_command(&argv(&["exit", "+255"])), Err(Error::RequestExit(Some(255))));
}

#[test]
fn exit_with_bad_code() {
    assert_eq!(
        exit_command(&argv(&["exit", "256"])),
        Err(Error::ExitCodeParseError("256".to_string()))
    );
    assert_eq!(
        exit_command(&argv(&["exit", "-1"])),
        Err(Error::ExitCodeParseError("-1".to_string()))
    );
    assert_eq!(
        exit_command(&argv(&["exit", "abc"])),
        Err(Error::ExitCodeParseError("abc".to_string()))
    );
}

#[test]
fn set_requests_variable_change() {
    assert_eq!(
        kennsh::builtins::set(&argv(&["~set", "k", "v"])),
        Err(Error::VariableSetRequested("k".to_string(), "v".to_string()))
    );
    assert!(matches!(
        kennsh::builtins::set(&argv(&["~set", "k"])),
        Err(Error::OtherError(_))
    ));
}

#[test]
fn unset_requests_variable_removal() {
    assert_eq!(
        unset(&argv(&["~unset", "k"])),
        Err(Error::VariableUnsetRequested("k".to_string()))
    );
    assert!(matches!(unset(&argv(&["~unset"])), Err(Error::OtherError(_))));
}

#[test]
fn builtin_routing_table() {
    assert_eq!(classify_builtin("exit"), BuiltinKind::Exit);
    assert_eq!(classify_builtin("cd"), BuiltinKind::ChangeDirectory);
    assert_eq!(classify_builtin("~set"), BuiltinKind::SetVariable);
    assert_eq!(classify_builtin("~unset"), BuiltinKind::UnsetVariable);
    assert_eq!(classify_builtin("env"), BuiltinKind::Environment);
    assert_eq!(classify_builtin("head"), BuiltinKind::Head);
    assert_eq!(classify_builtin("cat"), BuiltinKind::Cat);
    assert_eq!(classify_builtin("~server"), BuiltinKind::Server);
    assert_eq!(classify_builtin("~prompt"), BuiltinKind::Prompt);
    assert_eq!(classify_builtin("~color_test"), BuiltinKind::ColorTest);
    assert_eq!(classify_builtin("ls"), BuiltinKind::External);
}

#[test]
fn external_command_status_mapping() {
    assert_eq!(
        map_wait_status(127, "nosuch".to_string()),
        Err(Error::CommandNotFound("nosuch".to_string()))
    );
    assert_eq!(
        map_wait_status(126, "noexec".to_string()),
        Err(Error::CommandPermissionDenied("noexec".to_string()))
    );
    assert_eq!(map_wait_status(0, "ok".to_string()), Ok(0));
    assert_eq!(map_wait_status(42, "ok".to_string()), Ok(42));
}

#[test]
fn error_exit_codes() {
    assert_eq!(error_exit_code(&Error::CommandNotFound("x".into())), 127);
    assert_eq!(error_exit_code(&Error::CommandPermissionDenied("x".into())), 126);
    assert_eq!(error_exit_code(&Error::PermissionDenied(None)), 126);
    assert_eq!(error_exit_code(&Error::FileNotFound(None)), 125);
    assert_eq!(error_exit_code(&Error::OtherError("x".into())), 1);
}

#[test]
fn create_against_existing_file_is_refused() {
    let dest = "out.txt".to_string();
    let r = output_open_plan(&OutputRedirectionKind::Create, &dest, true);
    match r {
        Err(Error::OtherError(m)) => assert!(m.contains("already exists")),
        other => panic!("unexpected plan: {:?}", other),
    }
}

#[test]
fn output_open_modes() {
    let dest = "out.txt".to_string();
    assert_eq!(
        output_open_plan(&OutputRedirectionKind::Create, &dest, false),
        Ok(OutputOpenMode::CreateNew)
    );
    assert_eq!(
        output_open_plan(&OutputRedirectionKind::Append, &dest, true),
        Ok(OutputOpenMode::Append)
    );
    assert_eq!(
        output_open_plan(&OutputRedirectionKind::Append, &dest, false),
        Ok(OutputOpenMode::Append)
    );
    assert_eq!(
        output_open_plan(&OutputRedirectionKind::Overwrite, &dest, true),
        Ok(OutputOpenMode::Truncate)
    );
}

#[test]
fn overwrite_of_absent_file_is_not_found() {
    let dest = "missing.txt".to_string();
    assert_eq!(
        output_open_plan(&OutputRedirectionKind::Overwrite, &dest, false),
        Err(Error::FileNotFound(Some("missing.txt".to_string())))
    );
}

#[test]
fn input_open_failures_are_classified() {
    let src = "in.txt".to_string();
    assert_eq!(
        input_open_error(&src, OpenFailure::NotFound),
        Error::FileNotFound(Some("in.txt".to_string()))
    );
    assert_eq!(
        input_open_error(&src, OpenFailure::PermissionDenied),
        Error::PermissionDenied(Some("in.txt".to_string()))
    );
    assert_eq!(
        input_open_error(&src, OpenFailure::Other),
        Error::SyscallFailure("open".to_string())
    );
}

#[test]
fn pipeline_wiring_connects_stages() {
    let w = pipeline_wiring(3);
    assert_eq!(w.len(), 3);
    assert_eq!(w[0].stdin_pipe, None);
    assert_eq!(w[0].stdout_pipe, Some(0));
    assert_eq!(w[1].stdin_pipe, Some(0));
    assert_eq!(w[1].stdout_pipe, Some(1));
    assert_eq!(w[2].stdin_pipe, Some(1));
    assert_eq!(w[2].stdout_pipe, None);
}

#[test]
fn pipeline_reports_last_status_only() {
    assert_eq!(pipeline_report(&vec![1, 0, 9]), 9);
    assert_eq!(pipeline_report(&vec![7]), 7);
}

#[test]
fn cat_option_letters_accumulate() {
    let actions = cat(&argv(&["cat", "-nE", "f"])).unwrap();
    assert_eq!(actions.len(), 1);
    assert_eq!(actions[0].filename, "f");
    assert!(actions[0].options.number_lines);
    assert!(actions[0].options.dollar_at_end_of_line);
    assert!(!actions[0].options.show_tabs);
}

#[test]
fn cat_options_apply_only_to_later_files() {
    let actions = cat(&argv(&["cat", "a", "-n", "b"])).unwrap();
    assert_eq!(actions.len(), 2);
    assert!(!actions[0].options.number_lines);
    assert!(actions[1].options.number_lines);
}

#[test]
fn cat_conflicting_options_rejected() {
    let r = cat(&argv(&["cat", "-b", "-u", "f"]));
    match r {
        Err(Error::OtherError(m)) => assert!(m.contains("-b and -u")),
        other => panic!("unexpected: {:?}", other),
    }
}

#[test]
fn cat_unrecognized_option_rejected() {
    assert!(matches!(cat(&argv(&["cat", "-z"])), Err(Error::OtherError(_))));
}

#[test]
fn cat_capital_a_turns_on_three() {
    let mut o = CatOptions::default();
    assert!(o.parse_option("-A").is_ok());
    assert!(o.show_non_printable && o.dollar_at_end_of_line && o.show_tabs);
    assert!(o.parse_option("=A").is_ok());
    assert!(!o.show_non_printable && !o.dollar_at_end_of_line && !o.show_tabs);
}

#[test]
fn head_plan_lines_option() {
    let plan = head(&argv(&["head", "-n", "5", "f.txt"])).unwrap();
    assert_eq!(plan.count, HeadCount::Lines(5));
    assert_eq!(plan.mode, HeadMode::Quiet);
    assert_eq!(plan.files, vec!["f.txt".to_string()]);
}

#[test]
fn head_plan_bytes_clustered() {
    let plan = head(&argv(&["head", "-c5", "a", "b"])).unwrap();
    assert_eq!(plan.count, HeadCount::Bytes(5));
    assert_eq!(plan.mode, HeadMode::Verbose);
    assert_eq!(plan.files, vec!["a".to_string(), "b".to_string()]);
}

#[test]
fn head_plan_mode_cluster() {
    let plan = head(&argv(&["head", "-qn3", "a", "b"])).unwrap();
    assert_eq!(plan.count, HeadCount::Lines(3));
    assert_eq!(plan.mode, HeadMode::Quiet);
}

#[test]
fn head_plan_defaults_to_stdin() {
    let plan = head(&argv(&["head"])).unwrap();
    assert_eq!(plan.count, HeadCount::Lines(10));
    assert_eq!(plan.mode, HeadMode::Quiet);
    assert_eq!(plan.files, vec!["-".to_string()]);
}

#[test]
fn head_plan_rejects_long_options() {
    assert!(matches!(head(&argv(&["head", "--lines"])), Err(Error::OtherError(_))));
}

#[test]
fn head_plan_rejects_missing_parameter() {
    assert!(matches!(head(&argv(&["head", "-n"])), Err(Error::OtherError(_))));
    assert!(matches!(head(&argv(&["head", "-nx"])), Err(Error::OtherError(_))));
}

#[test]
fn head_take_lines_positive() {
    let lines: Vec<String> = ["1", "2", "3", "4"].iter().map(|s| s.to_string()).collect();
    assert_eq!(head_take_lines(lines.clone(), 2), vec!["1".to_string(), "2".to_string()]);
    assert_eq!(head_take_lines(lines.clone(), 9), lines);
}

#[test]
fn head_take_lines_negative_skips_last() {
    let lines: Vec<String> = ["1", "2", "3", "4"].iter().map(|s| s.to_string()).collect();
    assert_eq!(head_take_lines(lines.clone(), -1), vec![
        "1".to_string(),
        "2".to_string(),
        "3".to_string()
    ]);
    assert_eq!(head_take_lines(lines, -9), Vec::<String>::new());
}

#[test]
fn head_take_bytes_rules() {
    let bytes = vec![1u8, 2, 3, 4, 5];
    assert_eq!(head_take_bytes(bytes.clone(), 3), vec![1, 2, 3]);
    assert_eq!(head_take_bytes(bytes.clone(), 99), bytes);
    assert_eq!(head_take_bytes(bytes.clone(), -2), vec![1, 2, 3]);
    assert_eq!(head_take_bytes(bytes, -9), Vec::<u8>::new());
}

#[test]
fn env_plan_bare_lists_environment() {
    assert_eq!(plan_env_command(&argv(&["env"])), Ok(EnvPlan::PrintEnvironment));
}

#[test]
fn env_plan_edits_then_command() {
    let plan = plan_env_command(&argv(&["env", "-i", "-uPATH", "-u", "HOME", "A=1", "ls", "-l"]));
    assert_eq!(
        plan,
        Ok(EnvPlan::Run {
            ops: vec![
                EnvOp::ClearAll,
                EnvOp::Remove("PATH".to_string()),
                EnvOp::Remove("HOME".to_string()),
                EnvOp::Assign("A".to_string(), "1".to_string()),
            ],
            command: vec!["ls".to_string(), "-l".to_string()],
        })
    );
}

#[test]
fn env_plan_without_command_runs_itself() {
    let plan = plan_env_command(&argv(&["env", "A=1"]));
    assert_eq!(
        plan,
        Ok(EnvPlan::Run {
            ops: vec![EnvOp::Assign("A".to_string(), "1".to_string())],
            command: vec!["env".to_string()],
        })
    );
}

#[test]
fn env_plan_rejects_bad_input() {
    assert!(matches!(plan_env_command(&argv(&["env", "-x"])), Err(Error::OtherError(_))));
    assert!(matches!(plan_env_command(&argv(&["env", "a=b=c"])), Err(Error::OtherError(_))));
    assert!(matches!(plan_env_command(&argv(&["env", "-u"])), Err(Error::OtherError(_))));
}

#[test]
fn cat_render_plain_rewrites_tabs() {
    let lines = vec![b"a\tb".to_vec()];
    let out = cat_render_lines(&lines, &CatOptions::default());
    assert_eq!(out, vec![b"a^Ib".to_vec()]);
}

#[test]
fn cat_render_numbering_column() {
    let mut opts = CatOptions::default();
    opts.parse_option("-n").unwrap();
    let lines = vec![b"x".to_vec(), b"y".to_vec()];
    let out = cat_render_lines(&lines, &opts);
    assert_eq!(out, vec![b"     1  x".to_vec(), b"     2  y".to_vec()]);
}

#[test]
fn cat_render_numbers_nonempty_only() {
    let mut opts = CatOptions::default();
    opts.parse_option("-b").unwrap();
    let lines = vec![b"a".to_vec(), b"".to_vec(), b"b".to_vec()];
    let out = cat_render_lines(&lines, &opts);
    assert_eq!(
        out,
        vec![b"     1  a".to_vec(), b"".to_vec(), b"     2  b".to_vec()]
    );
}

#[test]
fn cat_render_squeezes_repeated_empty_lines() {
    let mut opts = CatOptions::default();
    opts.parse_option("-s").unwrap();
    let lines = vec![b"a".to_vec(), b"".to_vec(), b" ".to_vec(), b"b".to_vec()];
    let out = cat_render_lines(&lines, &opts);
    assert_eq!(out, vec![b"a".to_vec(), b"".to_vec(), b"b".to_vec()]);
}

#[test]
fn cat_render_dollar_marks_line_ends() {
    let mut opts = CatOptions::default();
    opts.parse_option("-E").unwrap();
    let out = cat_render_lines(&vec![b"x".to_vec()], &opts);
    assert_eq!(out, vec![b"x$".to_vec()]);
}

#[test]
fn cat_render_shows_non_printables() {
    let mut opts = CatOptions::default();
    opts.parse_option("-v").unwrap();
    let lines = vec![vec![200u8, 1u8, 9u8]];
    let out = cat_render_lines(&lines, &opts);
    // 200 = M- then 73 ('I'); 1 = ^A; the tab survives without -T.
    assert_eq!(out, vec![b"M-I^A\t".to_vec()]);
}

#[test]
fn cat_render_caret_tab_with_show_tabs() {
    let mut opts = CatOptions::default();
    opts.parse_option("-t").unwrap();
    let out = cat_render_lines(&vec![vec![9u8]], &opts);
    assert_eq!(out, vec![b"^I".to_vec()]);
}
