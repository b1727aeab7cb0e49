use rust_bf::repl::dump_heading;
use rust_bf::repl::dump_line_count;
use rust_bf::repl::meta_action;
use rust_bf::repl::next_step;
use rust_bf::repl::parse_meta_command;
use rust_bf::repl::read_submission;
use rust_bf::repl::runnable_program;
use rust_bf::repl::select_mode;
use rust_bf::repl::write_dump_lines;
use rust_bf::repl::MetaAction;
use rust_bf::repl::MetaCommand;
use rust_bf::repl::ReplMode;
use rust_bf::repl::ReplStep;
use rust_bf::ModeFlagOverride;

/// What the bare mode writes for everything it read: the program's output and a line feed on
/// the first stream, the report of an error on the second.
fn bare(input: &[u8], max_steps: Option<usize>, cancel: bool) -> (Vec<u8>, String) {
    let mut stdout = Vec::new();
    let mut stderr = String::new();
    let Some(program) = read_submission(input).and_then(|text| runnable_program(&text)) else {
        return (stdout, stderr);
    };
    let flag = std::sync::Arc::new(std::sync::atomic::AtomicBool::new(cancel));
    let mut bf = rust_bf::BrainfuckReader::new(program.clone());
    match bf.run_with_control(rust_bf::StepControl::new(max_steps, flag)) {
        Ok(()) => {}
        Err(rust_bf::BrainfuckReaderError::StepLimitExceeded { limit }) => {
            stderr.push_str(&rust_bf::limits::step_limit_message(limit));
            stderr.push('\n');
        }
        Err(rust_bf::BrainfuckReaderError::Canceled) => {
            stderr.push_str(&rust_bf::limits::repl_timeout_message(100));
            stderr.push('\n');
        }
        Err(other) => {
            let (message, pos) = rust_bf::cli_util::reader_error_message(None, &other);
            let (excerpt, caret) = rust_bf::cli_util::error_context(&program, pos);
            stderr.push_str(&rust_bf::cli_util::error_heading(&message, pos));
            stderr.push_str(&format!("\n  {}\n  {}^\n", excerpt, " ".repeat(caret)));
        }
    }
    stdout.extend_from_slice(bf.output());
    stdout.push(b'\n');
    (stdout, stderr)
}

#[test]
fn read_submission_reads_until_eof_multiple_lines() {
    let input = b"+++\n>+.\n";
    let got = read_submission(&input[..]);
    assert_eq!(got.as_deref(), Some("+++\n>+.\n"));
}

#[test]
fn read_submission_empty_returns_none() {
    let got = read_submission(&Vec::<u8>::new());
    assert!(got.is_none());
}

#[test]
fn read_submission_refuses_what_is_no_text() {
    assert!(read_submission(&[b'+', 0xff, b'+']).is_none());
    assert!(read_submission(&[0xc3]).is_none());
    assert_eq!(read_submission("+é+".as_bytes()).as_deref(), Some("+é+"));
    assert_eq!(read_submission(b"\n").as_deref(), Some("\n"));
}

#[test]
fn bare_empty_input_exits_clean_and_quiet() {
    let (stdout, stderr) = bare(b"", None, false);
    assert!(stdout.is_empty());
    assert!(stderr.is_empty());
}

#[test]
fn repl_initial_prompt_appears() {
    // Where the input is no terminal the bare mode is chosen, and it prints no prompt.
    assert_eq!(select_mode(ModeFlagOverride::Unset, None, false), Ok(ReplMode::Bare));
    let (stdout, stderr) = bare(b"", None, false);
    assert!(stdout.is_empty());
    assert!(stderr.is_empty());
}

#[test]
fn repl_empty_submission_exits_cleanly() {
    let (stdout, stderr) = bare(b"", None, false);
    assert!(stdout.is_empty());
    assert!(stderr.is_empty());
    let (stdout, stderr) = bare(b"  \n no program here \n", None, false);
    assert!(stdout.is_empty());
    assert!(stderr.is_empty());
}

#[test]
fn repl_valid_program_then_eof_outputs_and_exits() {
    let program = "+++++++++++++++++++++++++++++++++++++++++++++++++++++++++++++++++.";
    let (stdout, stderr) = bare(program.as_bytes(), None, false);
    assert!(String::from_utf8(stdout).unwrap().contains("A\n"));
    assert!(stderr.is_empty());
}

#[test]
fn repl_invalid_program_reports_error_and_exits() {
    let (stdout, stderr) = bare(b"]", None, false);
    assert!(stderr.contains("Parse error: unmatched bracket"));
    assert!(String::from_utf8(stdout).unwrap().contains("\n"));
    assert_eq!(stderr, "Parse error: unmatched bracket '']'' at instruction 0\n  ]\n  ^\n");
}

#[test]
fn bare_invalid_program_prints_concise_error_and_exits_clean() {
    let (_stdout, stderr) = bare(b"]", None, false);
    assert!(stderr.contains("Parse error") || stderr.contains("unmatched"));
}

#[test]
fn bare_valid_program_outputs_expected_stdout_and_no_prompts() {
    let (stdout, stderr) = bare(b"+++.", None, false);
    assert!(String::from_utf8(stdout).unwrap().starts_with("\u{3}"));
    assert!(stderr.is_empty());
}

#[test]
fn auto_detect_non_tty_runs_bare_once_and_exits_0() {
    assert_eq!(select_mode(ModeFlagOverride::Unset, None, false), Ok(ReplMode::Bare));
    let (stdout, stderr) = bare(b"+++.", None, false);
    assert!(String::from_utf8(stdout).unwrap().contains("\u{3}"));
    assert!(stderr.is_empty());
}

#[test]
fn test_auto_bare_on_piped_stdin_executes_once() {
    assert_eq!(select_mode(ModeFlagOverride::Unset, None, false), Ok(ReplMode::Bare));
    let (stdout, _stderr) = bare(b"+++.", None, false);
    assert!(!stdout.is_empty());
}

#[test]
fn test_stdout_only_for_program_output() {
    let (stdout, stderr) = bare(b"+++.", None, false);
    assert!(!stdout.is_empty());
    assert!(!stderr.contains("Execution aborted"));
}

#[test]
fn stream_separation_program_output_stdout_meta_stderr() {
    let (stdout, stderr) = bare(b"+++.", None, false);
    assert!(String::from_utf8(stdout).unwrap().contains("\u{3}"));
    assert!(!stderr.contains("\u{3}"));
}

#[test]
fn test_repl_bare_step_limit_infinite() {
    let (stdout, stderr) = bare(b"+[]", Some(50), false);
    assert!(stderr.contains("step limit exceeded (50)"));
    assert!(!String::from_utf8(stdout).unwrap().contains("Execution aborted"));
}

#[test]
fn test_repl_bare_timeout_infinite() {
    let (stdout, stderr) = bare(b"+[]", None, true);
    assert!(stderr.contains("Execution aborted") && stderr.contains("timeout"));
    assert!(!String::from_utf8(stdout).unwrap().contains("Execution aborted"));
}

#[test]
fn test_stderr_only_for_abort_messages() {
    let (stdout, stderr) = bare(b"+[]", None, true);
    assert!(stderr.contains("Execution aborted"));
    assert!(!String::from_utf8(stdout).unwrap().contains("Execution aborted"));
    assert_eq!(stderr, "Execution aborted: wall-clock timeout (100 ms)\n");
}

#[test]
fn test_forced_editor_on_non_tty_errors() {
    let refused = select_mode(ModeFlagOverride::Editor, None, false);
    assert!(refused.unwrap_err().contains("stdin is not a TTY"));
}

#[test]
fn editor_on_non_tty_is_error_exit_1() {
    let message = select_mode(ModeFlagOverride::Editor, None, false).unwrap_err();
    assert!(message.contains("TTY") || message.contains("non-tty"));
    assert_eq!(message, "cannot start editor: stdin is not a TTY (use --bare or BF_REPL_MODE=bare)");
}

#[test]
fn env_mode_respected_flags_override() {
    assert_eq!(select_mode(ModeFlagOverride::Bare, Some("editor"), false), Ok(ReplMode::Bare));
    let (stdout, _stderr) = bare(b"+++.", None, false);
    assert!(String::from_utf8(stdout).unwrap().contains("\u{3}"));
}

#[test]
fn mode_selection_in_every_case() {
    assert_eq!(select_mode(ModeFlagOverride::Bare, None, true), Ok(ReplMode::Bare));
    assert_eq!(select_mode(ModeFlagOverride::Bare, Some("nonsense"), true), Ok(ReplMode::Bare));
    assert_eq!(select_mode(ModeFlagOverride::Editor, Some("bare"), true), Ok(ReplMode::Editor));
    assert_eq!(select_mode(ModeFlagOverride::Unset, None, true), Ok(ReplMode::Editor));
    assert_eq!(select_mode(ModeFlagOverride::Unset, None, false), Ok(ReplMode::Bare));
    assert_eq!(select_mode(ModeFlagOverride::Unset, Some("bare"), true), Ok(ReplMode::Bare));
    assert_eq!(select_mode(ModeFlagOverride::Unset, Some("  BaRe\n"), true), Ok(ReplMode::Bare));
    assert_eq!(select_mode(ModeFlagOverride::Unset, Some("EDITOR"), true), Ok(ReplMode::Editor));
    assert_eq!(
        select_mode(ModeFlagOverride::Unset, Some(" editor "), false),
        Err("cannot start editor: stdin is not a TTY (use BF_REPL_MODE=bare)".to_string())
    );
    assert_eq!(
        select_mode(ModeFlagOverride::Unset, Some(" Fancy "), true),
        Err("invalid BF_REPL_MODE value:  Fancy , must be 'bare' or 'editor'".to_string())
    );
    assert_eq!(
        select_mode(ModeFlagOverride::Unset, Some(""), false),
        Err("invalid BF_REPL_MODE value: , must be 'bare' or 'editor'".to_string())
    );
    assert_eq!(
        select_mode(ModeFlagOverride::Unset, Some("ba re"), false),
        Err("invalid BF_REPL_MODE value: ba re, must be 'bare' or 'editor'".to_string())
    );
}

#[test]
fn meta_exit_exits_code_0_and_no_stdout() {
    assert_eq!(next_step(Some(":exit\n")), ReplStep::Meta(MetaCommand::Exit));
    assert_eq!(meta_action(MetaCommand::Exit), MetaAction::Exit);
    // A colon is no instruction: the bare mode finds nothing to run and writes nothing.
    let (stdout, stderr) = bare(b":exit\n", None, false);
    assert!(stdout.is_empty());
    assert!(stderr.is_empty());
}

#[test]
fn meta_help_prints_to_stderr_not_stdout() {
    assert_eq!(next_step(Some(":help\n:exit\n")), ReplStep::Meta(MetaCommand::Help));
    assert_eq!(meta_action(MetaCommand::Help), MetaAction::Continue);
    let (stdout, stderr) = bare(b":help\n:exit\n", None, false);
    assert!(stdout.is_empty() || String::from_utf8(stdout).unwrap().contains("\n"));
    assert!(stderr.is_empty() || stderr.contains("help"));
}

#[test]
fn prompts_and_meta_are_flushed_to_stderr() {
    let (_stdout, stderr) = bare(b":help\n:exit\n", None, false);
    assert!(stderr.is_empty() || stderr.contains(":help") || stderr.contains("help"));
}

#[test]
fn meta_reset_clears_current_buffer_but_not_history() {
    assert_eq!(parse_meta_command(":reset\n"), Some(MetaCommand::Reset));
    assert_eq!(meta_action(MetaCommand::Reset), MetaAction::ResetState);
    let (stdout, _stderr) = bare(b"+++\n\x04:reset\n+.\n:exit\n", None, false);
    assert_eq!(stdout, vec![4u8, b'\n']);
}

#[test]
fn meta_commands_are_read_from_the_first_word() {
    assert_eq!(parse_meta_command(""), None);
    assert_eq!(parse_meta_command("   \n\t"), None);
    assert_eq!(parse_meta_command("+++"), None);
    assert_eq!(parse_meta_command("+ :exit"), None);
    assert_eq!(parse_meta_command(":exit"), Some(MetaCommand::Exit));
    assert_eq!(parse_meta_command("  :quit  "), Some(MetaCommand::Exit));
    assert_eq!(parse_meta_command(":exit now"), Some(MetaCommand::Exit));
    assert_eq!(parse_meta_command("\u{a0}:help"), Some(MetaCommand::Help));
    assert_eq!(parse_meta_command(":"), Some(MetaCommand::Help));
    assert_eq!(parse_meta_command(":unknown"), Some(MetaCommand::Help));
    assert_eq!(parse_meta_command(":EXIT"), Some(MetaCommand::Help));
    assert_eq!(parse_meta_command(":exit:"), Some(MetaCommand::Help));
    assert_eq!(parse_meta_command(":reset"), Some(MetaCommand::Reset));
    assert_eq!(
        parse_meta_command(":dump"),
        Some(MetaCommand::Dump { with_line_numbers: false, all_to_stderr: false })
    );
    assert_eq!(
        parse_meta_command(":dump -n"),
        Some(MetaCommand::Dump { with_line_numbers: true, all_to_stderr: false })
    );
    assert_eq!(
        parse_meta_command(":dump --stderr x --line-numbers"),
        Some(MetaCommand::Dump { with_line_numbers: true, all_to_stderr: true })
    );
    assert_eq!(
        parse_meta_command(":dump\n-e\n-x"),
        Some(MetaCommand::Dump { with_line_numbers: false, all_to_stderr: true })
    );
    assert_eq!(
        parse_meta_command(":dump -ne :dump"),
        Some(MetaCommand::Dump { with_line_numbers: false, all_to_stderr: false })
    );
}

#[test]
fn next_step_sorts_submissions() {
    assert_eq!(next_step(None), ReplStep::Quit);
    assert_eq!(next_step(Some("")), ReplStep::Ignore);
    assert_eq!(next_step(Some("  \n")), ReplStep::Ignore);
    assert_eq!(next_step(Some("just words")), ReplStep::Ignore);
    assert_eq!(next_step(Some(" +a+ [x] \n.")), ReplStep::Execute("++[].".to_string()));
    assert_eq!(
        next_step(Some(":dump -n")),
        ReplStep::Meta(MetaCommand::Dump { with_line_numbers: true, all_to_stderr: false })
    );
    assert_eq!(meta_action(MetaCommand::Dump { with_line_numbers: true, all_to_stderr: false }), MetaAction::Continue);
    assert_eq!(runnable_program("no code"), None);
    assert_eq!(runnable_program("a,b.c"), Some(",.".to_string()));
}

#[test]
fn bf_only_keeps_the_eight_instructions() {
    assert_eq!(rust_bf::bf_only(""), "");
    assert_eq!(rust_bf::bf_only("hello"), "");
    assert_eq!(rust_bf::bf_only("><+-.,[]"), "><+-.,[]");
    assert_eq!(rust_bf::bf_only("a>b<c+d-e.f,g[h]i"), "><+-.,[]");
    assert_eq!(rust_bf::bf_only("+é+\n(+)"), "+++");
}

fn dump_lines_by_std(buf: &str, with_line_numbers: bool) -> String {
    let mut w = String::new();
    if !with_line_numbers {
        w.push_str(buf);
        return w;
    }
    if buf.is_empty() {
        return w;
    }
    for (i, line) in buf.split_inclusive('\n').enumerate() {
        w.push_str(&format!("{:>4} | {}", i + 1, line));
    }
    w
}

fn line_count_by_std(buf: &str) -> usize {
    let lines: Vec<&str> = if buf.is_empty() { Vec::new() } else { buf.split_inclusive("\n").collect() };
    if lines.is_empty() {
        if buf.is_empty() {
            0
        } else {
            1
        }
    } else {
        let mut c = 0usize;
        for l in &lines {
            if l.ends_with('\n') {
                c += 1;
            }
        }
        if buf.ends_with('\n') {
            c
        } else {
            c + 1
        }
    }
}

#[test]
fn dumps_number_their_lines() {
    assert_eq!(write_dump_lines("+++\n>+.\n", false), "+++\n>+.\n");
    assert_eq!(write_dump_lines("+++\n>+.\n", true), "   1 | +++\n   2 | >+.\n");
    assert_eq!(write_dump_lines("+++\n>+.", true), "   1 | +++\n   2 | >+.");
    assert_eq!(write_dump_lines("", true), "");
    assert_eq!(write_dump_lines("\n\n", true), "   1 | \n   2 | \n");
    let long = "+\n".repeat(12345);
    for buf in ["", "+", "\n", "a\nb", "a\nb\n", "\n\n\nx", long.as_str()] {
        assert_eq!(write_dump_lines(buf, true), dump_lines_by_std(buf, true));
        assert_eq!(write_dump_lines(buf, false), dump_lines_by_std(buf, false));
        assert_eq!(dump_line_count(buf), line_count_by_std(buf));
    }
    assert!(write_dump_lines(&long, true).ends_with("12345 | +\n"));
    assert_eq!(dump_line_count("a\nb"), 2);
    assert_eq!(dump_heading(2), "- dump (2 lines) -");
}
