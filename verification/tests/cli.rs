use rust_bf::cli_util::error_context;
use rust_bf::cli_util::error_heading;
use rust_bf::cli_util::reader_error_message;
use rust_bf::limits::env_max_steps;
use rust_bf::limits::env_timeout_ms;
use rust_bf::limits::read_timeout_message;
use rust_bf::limits::repl_timeout_message;
use rust_bf::limits::resolve_max_steps;
use rust_bf::limits::resolve_timeout_ms;
use rust_bf::limits::step_limit_message;
use rust_bf::BrainfuckReader;
use rust_bf::BrainfuckReaderError;
use rust_bf::UnmatchedBracketKind;

#[test]
fn test_invalid_character_error() {
    let code = "+a+";
    let mut bf = BrainfuckReader::new(code.to_string());
    let err = bf.run().unwrap_err();
    let (message, pos) = reader_error_message(Some("bf"), &err);
    let stderr = error_heading(&message, pos);
    assert!(stderr.contains("invalid") || stderr.contains("error"));
    assert!(!stderr.contains("Execution aborted"));
    assert_eq!(stderr, "bf: Parse error: invalid character 'a' at instruction 1");
    assert_eq!(error_context(code, pos), ("+a+".to_string(), 1));
}

#[test]
fn test_read_positional_code_success() {
    let mut bf = BrainfuckReader::new("+++.".to_string());
    assert!(bf.run().is_ok());
    assert!(!bf.output().is_empty());
}

#[test]
fn test_read_step_limit_infinite_flag() {
    let flag = std::sync::Arc::new(std::sync::atomic::AtomicBool::new(false));
    let max_steps = resolve_max_steps(Some(50), None).unwrap() as usize;
    let mut bf = BrainfuckReader::new("+[]".to_string());
    let result = bf.run_with_control(rust_bf::StepControl::new(Some(max_steps), flag));
    let stderr = match result {
        Err(BrainfuckReaderError::StepLimitExceeded { limit }) => step_limit_message(limit),
        other => panic!("unexpected {other:?}"),
    };
    assert!(stderr.contains("step limit exceeded (50)"));
    assert_eq!(stderr, "Execution aborted: step limit exceeded (50)");
}

#[test]
fn test_read_timeout_infinite_flag() {
    let flag = std::sync::Arc::new(std::sync::atomic::AtomicBool::new(true));
    let timeout_ms = resolve_timeout_ms(Some(100), None);
    let mut bf = BrainfuckReader::new("+[]".to_string());
    let result = bf.run_with_control(rust_bf::StepControl::new(Some(usize::MAX), flag));
    let stderr = match result {
        Err(BrainfuckReaderError::Canceled) => read_timeout_message(timeout_ms as usize),
        other => panic!("unexpected {other:?}"),
    };
    assert!(stderr.contains("timeout"));
    assert_eq!(stderr, "Execution aborted: wall-clock timeout exceeded (100 ms)");
}

#[test]
fn messages_for_every_error() {
    let cases: Vec<(BrainfuckReaderError, &str, usize)> = vec![
        (
            BrainfuckReaderError::PointerOutOfBounds { ip: 7, ptr: 29999, op: '>' },
            "Runtime error: pointer out of bounds (ptr=29999, op=>)",
            7,
        ),
        (BrainfuckReaderError::InvalidCharacter { ch: 'é', ip: 3 }, "Parse error: invalid character 'é'", 3),
        (
            BrainfuckReaderError::UnmatchedBrackets { ip: 5, kind: UnmatchedBracketKind::Open },
            "Parse error: unmatched bracket ''[''",
            5,
        ),
        (
            BrainfuckReaderError::UnmatchedBrackets { ip: 6, kind: UnmatchedBracketKind::Close },
            "Parse error: unmatched bracket '']''",
            6,
        ),
        (
            BrainfuckReaderError::IoError {
                ip: 9,
                source: std::io::Error::new(std::io::ErrorKind::Other, "pipe closed"),
            },
            "I/O error: pipe closed",
            9,
        ),
        (BrainfuckReaderError::StepLimitExceeded { limit: 50 }, "Step limit exceeded (50", 0),
        (BrainfuckReaderError::Canceled, "Wall-clock timeout exceeded", 0),
    ];
    for (err, text, at) in cases {
        assert_eq!(reader_error_message(None, &err), (text.to_string(), at));
        assert_eq!(reader_error_message(Some("bf"), &err), (format!("bf: {text}"), at));
    }
}

#[test]
fn kinds_are_described_in_quotes() {
    assert_eq!(UnmatchedBracketKind::Open.describe(), "'['");
    assert_eq!(UnmatchedBracketKind::Close.describe(), "']'");
}

#[test]
fn context_is_cut_at_thirty_two_characters_on_either_side() {
    let code: String = ('a'..='z').chain('A'..='Z').chain('a'..='z').chain('A'..='Z').collect();
    assert_eq!(code.len(), 104);
    assert_eq!(error_context(&code, 0), (code[0..33].to_string(), 0));
    assert_eq!(error_context(&code, 5), (code[0..38].to_string(), 5));
    assert_eq!(error_context(&code, 32), (code[0..65].to_string(), 32));
    assert_eq!(error_context(&code, 33), (code[1..66].to_string(), 32));
    assert_eq!(error_context(&code, 50), (code[18..83].to_string(), 32));
    assert_eq!(error_context(&code, 71), (code[39..104].to_string(), 32));
    assert_eq!(error_context(&code, 72), (code[40..104].to_string(), 32));
    assert_eq!(error_context(&code, 103), (code[71..104].to_string(), 32));
    assert_eq!(error_context(&code, 104), (code[72..104].to_string(), 32));
    assert_eq!(error_context(&code, 136), (String::new(), 32));
    assert_eq!(error_context(&code, 1000), (String::new(), 32));
    assert_eq!(error_context("", 0), (String::new(), 0));
    assert_eq!(error_context("+é[", 3), ("+é[".to_string(), 3));
    assert_eq!(error_context("ééé", 1), ("ééé".to_string(), 1));
    assert_eq!(error_heading("Parse error", 12), "Parse error at instruction 12");
}

#[test]
fn limits_come_from_the_flag_then_the_environment_then_the_default() {
    assert_eq!(resolve_timeout_ms(Some(100), Some("7")), 100);
    assert_eq!(resolve_timeout_ms(None, Some("7")), 7);
    assert_eq!(resolve_timeout_ms(None, Some("seven")), 2000);
    assert_eq!(resolve_timeout_ms(None, Some("")), 2000);
    assert_eq!(resolve_timeout_ms(None, Some("-1")), 2000);
    assert_eq!(resolve_timeout_ms(None, Some(" 7")), 2000);
    assert_eq!(resolve_timeout_ms(None, Some("+7")), 7);
    assert_eq!(resolve_timeout_ms(None, Some("18446744073709551615")), u64::MAX);
    assert_eq!(resolve_timeout_ms(None, Some("18446744073709551616")), 2000);
    assert_eq!(resolve_timeout_ms(None, None), 2000);
    assert_eq!(resolve_max_steps(Some(50), Some("7")), Some(50));
    assert_eq!(resolve_max_steps(None, Some("7")), Some(7));
    assert_eq!(resolve_max_steps(None, Some("x")), None);
    assert_eq!(resolve_max_steps(None, None), None);
    assert_eq!(env_max_steps(Some("50")), Some(50));
    assert_eq!(env_max_steps(Some("fifty")), None);
    assert_eq!(env_max_steps(None), None);
    assert_eq!(env_timeout_ms(Some("100")), 100);
    assert_eq!(env_timeout_ms(Some("1e3")), 2000);
    assert_eq!(env_timeout_ms(None), 2000);
}

#[test]
fn abort_messages() {
    assert_eq!(step_limit_message(50), "Execution aborted: step limit exceeded (50)");
    assert_eq!(repl_timeout_message(2000), "Execution aborted: wall-clock timeout (2000 ms)");
    assert_eq!(read_timeout_message(100), "Execution aborted: wall-clock timeout exceeded (100 ms)");
}
