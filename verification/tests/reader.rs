use rust_bf::BrainfuckReader;
use rust_bf::BrainfuckReaderError;
use rust_bf::UnmatchedBracketKind;

#[test]
fn invalid_character_returns_error() {
    let mut bf = BrainfuckReader::new_with_memory("+a+".to_string(), 10);
    let result = bf.run();
    assert!(matches!(result, Err(BrainfuckReaderError::InvalidCharacter { ch: 'a', .. })));
}

#[test]
fn unmatched_open_bracket_returns_error() {
    // The starting cell is zero, so encountering '[' with no matching ']' should error.
    let mut bf = BrainfuckReader::new_with_memory("[+".to_string(), 10);
    let result = bf.run();
    assert!(matches!(
        result,
        Err(BrainfuckReaderError::UnmatchedBrackets { kind: UnmatchedBracketKind::Open, .. })
    ));
}

#[test]
fn left_pointer_out_of_bounds_errors() {
    let mut bf = BrainfuckReader::new_with_memory("<".to_string(), 10);
    let result = bf.run();
    assert!(matches!(result, Err(BrainfuckReaderError::PointerOutOfBounds { op: '<', .. })));
}

#[test]
fn right_pointer_out_of_bounds_errors() {
    // Move right beyond the last cell. With 3 cells (0..=2), the 3rd '>' attempts to move beyond index 2.
    let memory_size = 3;
    let code = ">".repeat(memory_size);
    let mut bf = BrainfuckReader::new_with_memory(code, memory_size);
    let result = bf.run();
    assert!(matches!(result, Err(BrainfuckReaderError::PointerOutOfBounds { op: '>', .. })));
}

#[test]
fn empty_loop_on_zero_cell_is_ok() {
    let mut bf = BrainfuckReader::new_with_memory("[]".to_string(), 10);
    let result = bf.run();
    assert!(result.is_ok());
}

#[test]
fn simple_program_without_io_runs_ok() {
    // Increment a few times and use a loop to zero the cell.
    // This exercises '+', '-', '[', ']' without relying on I/O or stdout.
    let mut bf = BrainfuckReader::new_with_memory("+++[-]".to_string(), 10);
    let result = bf.run();
    assert!(result.is_ok());
}

#[test]
fn wrapping_subtraction() {
    let mut bf = BrainfuckReader::new_with_memory("-".to_string(), 1);
    let result = bf.run();
    assert!(result.is_ok());
    assert_eq!(bf.memory()[0], 255);
}

#[test]
fn wrapping_addition() {
    let code = "+".repeat(256); // 256 increments should wrap around
    let mut bf = BrainfuckReader::new_with_memory(code, 1);
    let result = bf.run();
    assert!(result.is_ok());
    assert_eq!(bf.memory()[0], 0);
}

fn run_collecting(code: &str, cells: usize, input: &[u8]) -> (Result<(), BrainfuckReaderError>, Vec<u8>) {
    let collected = std::sync::Arc::new(std::sync::Mutex::new(Vec::<u8>::new()));
    let pending = std::sync::Arc::new(std::sync::Mutex::new(
        input.iter().copied().collect::<std::collections::VecDeque<u8>>(),
    ));
    let mut bf = BrainfuckReader::new_with_memory(code.to_string(), cells);
    let sink = collected.clone();
    bf.set_output_sink(move |bytes: &[u8]| sink.lock().unwrap().extend_from_slice(bytes));
    let source = pending.clone();
    bf.set_input_provider(move || source.lock().unwrap().pop_front());
    let result = bf.run();
    let out = collected.lock().unwrap().clone();
    (result, out)
}

#[test]
fn reads_from_stdin_and_echoes_byte() {
    let (result, mut out) = run_collecting(",.", 30000, b"Z");
    assert!(result.is_ok());
    out.push(b'\n');
    assert_eq!(out, b"Z\n".to_vec());
}

#[test]
fn stdin_read_reads_from_stdin_and_echoes_byte() {
    let mut bf = BrainfuckReader::new(",.".to_string());
    bf.set_input_provider(|| Some(b'Z'));
    assert!(bf.run().is_ok());
    let mut out = bf.output().clone();
    out.push(b'\n');
    assert_eq!(String::from_utf8(out).unwrap(), "Z\n");
}

#[test]
fn repl_non_persistent_state_across_runs() {
    let program = "+++++++++++++++++++++++++++++++++++++++++++++++++++++++++++++++++."; // 'A'
    let mut first = BrainfuckReader::new(program.to_string());
    assert!(first.run().is_ok());
    let mut out1 = String::from_utf8(first.output().clone()).expect("utf8");
    out1.push('\n');
    let mut second = BrainfuckReader::new(program.to_string());
    assert!(second.run().is_ok());
    let mut out2 = String::from_utf8(second.output().clone()).expect("utf8");
    out2.push('\n');
    assert!(out1.contains("A\n"), "first run should print A\\n, got: {out1:?}");
    assert!(out2.contains("A\n"), "second run should print A\\n, got: {out2:?}");
    assert_eq!(out1, out2, "stdout should be identical across runs (non-persistent state)");
}

#[test]
fn sigint_during_execution_exits_0() {
    // A request to stop that arrives while a program spins is honoured in front of the next
    // instruction.
    let flag = std::sync::Arc::new(std::sync::atomic::AtomicBool::new(false));
    let seen = flag.clone();
    let mut bf = BrainfuckReader::new_with_memory("+[>+<]".to_string(), 4);
    bf.set_tape_observer(2, move |_ptr: usize, _base: usize, window: &[u8]| {
        if window.len() > 1 && window[1] == 3 {
            seen.store(true, std::sync::atomic::Ordering::Relaxed);
        }
    });
    let result = bf.run_with_control(rust_bf::StepControl::new(None, flag));
    assert!(matches!(result, Err(BrainfuckReaderError::Canceled)));
    assert_eq!(bf.memory()[1], 3);
    assert_eq!(bf.pointer(), 1);
}

#[test]
fn three_pluses_and_a_dot_emit_byte_three() {
    for cells in [1usize, 2, 30000] {
        let mut bf = BrainfuckReader::new_with_memory("+++.".to_string(), cells);
        assert!(bf.run().is_ok());
        assert_eq!(bf.output(), &vec![3u8]);
        assert_eq!(bf.memory()[0], 3);
        assert_eq!(bf.memory().len(), cells);
    }
}

#[test]
fn lone_open_bracket_is_reported_at_index_zero() {
    let mut bf = BrainfuckReader::new("[".to_string());
    let result = bf.run();
    assert!(matches!(
        result,
        Err(BrainfuckReaderError::UnmatchedBrackets { ip: 0, kind: UnmatchedBracketKind::Open })
    ));
}

#[test]
fn spinning_loop_hits_the_step_limit() {
    let flag = std::sync::Arc::new(std::sync::atomic::AtomicBool::new(false));
    let mut bf = BrainfuckReader::new("+[]".to_string());
    let result = bf.run_with_control(rust_bf::StepControl::new(Some(50), flag));
    assert!(matches!(result, Err(BrainfuckReaderError::StepLimitExceeded { limit: 50 })));
    assert_eq!(bf.memory()[0], 1);
}

#[test]
fn step_limit_is_not_reached_by_a_program_that_needs_exactly_that_many_steps() {
    let flag = std::sync::Arc::new(std::sync::atomic::AtomicBool::new(false));
    let mut bf = BrainfuckReader::new("+++".to_string());
    assert!(bf.run_with_control(rust_bf::StepControl::new(Some(3), flag.clone())).is_ok());
    let mut bf = BrainfuckReader::new("+++".to_string());
    let result = bf.run_with_control(rust_bf::StepControl::new(Some(2), flag));
    assert!(matches!(result, Err(BrainfuckReaderError::StepLimitExceeded { limit: 2 })));
    assert_eq!(bf.memory()[0], 2);
}

#[test]
fn cancellation_is_seen_before_the_first_instruction() {
    let flag = std::sync::Arc::new(std::sync::atomic::AtomicBool::new(true));
    let mut bf = BrainfuckReader::new("+++.".to_string());
    let result = bf.run_with_control(rust_bf::StepControl::new(Some(0), flag.clone()));
    assert!(matches!(result, Err(BrainfuckReaderError::Canceled)));
    assert_eq!(bf.memory()[0], 0);
    assert!(bf.output().is_empty());
    // An empty program ends before anyone looks at the flag.
    let mut empty = BrainfuckReader::new(String::new());
    assert!(empty.run_with_control(rust_bf::StepControl::new(Some(0), flag)).is_ok());
}

#[test]
fn unmatched_close_is_reported_before_anything_runs() {
    let mut bf = BrainfuckReader::new("+++]+[".to_string());
    let result = bf.run();
    assert!(matches!(
        result,
        Err(BrainfuckReaderError::UnmatchedBrackets { ip: 3, kind: UnmatchedBracketKind::Close })
    ));
    assert_eq!(bf.memory()[0], 0);
}

#[test]
fn innermost_unclosed_bracket_is_reported() {
    let mut bf = BrainfuckReader::new("[[+]+[-[".to_string());
    let result = bf.run();
    assert!(matches!(
        result,
        Err(BrainfuckReaderError::UnmatchedBrackets { ip: 7, kind: UnmatchedBracketKind::Open })
    ));
}

#[test]
fn validation_passes_over_stray_characters_and_dispatch_rejects_them() {
    let mut bf = BrainfuckReader::new("++x[".to_string());
    assert!(matches!(
        bf.run(),
        Err(BrainfuckReaderError::UnmatchedBrackets { ip: 3, kind: UnmatchedBracketKind::Open })
    ));
    let mut bf = BrainfuckReader::new("++x[]".to_string());
    assert!(matches!(bf.run(), Err(BrainfuckReaderError::InvalidCharacter { ch: 'x', ip: 2 })));
    assert_eq!(bf.memory()[0], 2);
}

#[test]
fn pointer_bounds_on_tapes_of_several_sizes() {
    for cells in [1usize, 2, 3, 17] {
        let mut bf = BrainfuckReader::new_with_memory(">".repeat(cells - 1), cells);
        assert!(bf.run().is_ok());
        assert_eq!(bf.pointer(), cells - 1);
        let mut bf = BrainfuckReader::new_with_memory(">".repeat(cells), cells);
        let result = bf.run();
        match result {
            Err(BrainfuckReaderError::PointerOutOfBounds { ip, ptr, op }) => {
                assert_eq!(ip, cells - 1);
                assert_eq!(ptr, cells - 1);
                assert_eq!(op, '>');
            }
            other => panic!("unexpected {other:?}"),
        }
        assert_eq!(bf.pointer(), cells - 1);
        let mut bf = BrainfuckReader::new_with_memory("<".to_string(), cells);
        assert!(matches!(
            bf.run(),
            Err(BrainfuckReaderError::PointerOutOfBounds { ip: 0, ptr: 0, op: '<' })
        ));
    }
}

#[test]
fn cells_wrap_both_ways_and_go_round_in_256_steps() {
    let mut bf = BrainfuckReader::new_with_memory("-".to_string(), 1);
    assert!(bf.run().is_ok());
    assert_eq!(bf.memory()[0], 255);
    let mut bf = BrainfuckReader::new_with_memory("-+".to_string(), 1);
    assert!(bf.run().is_ok());
    assert_eq!(bf.memory()[0], 0);
    let mut bf = BrainfuckReader::new_with_memory(format!("+++++{}", "-".repeat(256)), 1);
    assert!(bf.run().is_ok());
    assert_eq!(bf.memory()[0], 5);
}

#[test]
fn input_end_clears_the_cell() {
    let (result, out) = run_collecting("+++,.", 10, b"");
    assert!(result.is_ok());
    assert_eq!(out, vec![0u8]);
    let mut bf = BrainfuckReader::new_with_memory("+++,".to_string(), 10);
    assert!(bf.run().is_ok());
    assert_eq!(bf.memory()[0], 0);
}

#[test]
fn echo_loop_copies_input_to_output() {
    let (result, out) = run_collecting(",[.,]", 10, b"hello, tape");
    assert!(result.is_ok());
    assert_eq!(out, b"hello, tape".to_vec());
}

#[test]
fn hello_world_runs() {
    let code = "++++++++++[>+++++++>++++++++++>+++>+<<<<-]>++.>+.+++++++..+++.>++.<<+++++++++++++++.>.+++.------.--------.>+.>.";
    let mut bf = BrainfuckReader::new(code.to_string());
    assert!(bf.run().is_ok());
    assert_eq!(bf.output().as_slice(), b"Hello World!\n");
}

#[test]
fn sink_takes_the_bytes_and_the_reader_keeps_none() {
    let (result, out) = run_collecting("++.+.", 4, b"");
    assert!(result.is_ok());
    assert_eq!(out, vec![2u8, 3]);
    let collected = std::sync::Arc::new(std::sync::Mutex::new(Vec::<Vec<u8>>::new()));
    let sink = collected.clone();
    let mut bf = BrainfuckReader::new("++.+.".to_string());
    bf.set_output_sink(move |bytes: &[u8]| sink.lock().unwrap().push(bytes.to_vec()));
    assert!(bf.run().is_ok());
    assert!(bf.output().is_empty());
    assert_eq!(*collected.lock().unwrap(), vec![vec![2u8], vec![3u8]]);
}

#[test]
fn output_of_the_last_run_replaces_that_of_the_run_before() {
    let mut bf = BrainfuckReader::new_with_memory("+.".to_string(), 2);
    assert!(bf.run().is_ok());
    assert_eq!(bf.output(), &vec![1u8]);
    assert!(bf.run().is_ok());
    assert_eq!(bf.output(), &vec![2u8]);
    assert_eq!(bf.memory()[0], 2);
}

struct FailingProvider;

impl rust_bf::hooks::InputProvider for FailingProvider {
    fn read_byte(&self) -> Result<Option<u8>, std::io::Error> {
        Err(std::io::Error::new(std::io::ErrorKind::Other, "device gone"))
    }
}

#[test]
fn failing_provider_ends_the_run_with_an_io_error() {
    let mut bf = BrainfuckReader::new_with_memory("++,+".to_string(), 2);
    bf.install_input_provider(Box::new(FailingProvider));
    let result = bf.run();
    match &result {
        Err(BrainfuckReaderError::IoError { ip, source }) => {
            assert_eq!(*ip, 2);
            assert_eq!(source.to_string(), "device gone");
        }
        other => panic!("unexpected {other:?}"),
    }
    assert_eq!(bf.memory()[0], 2);
    assert_eq!(result.unwrap_err().message(), "I/O error at instruction 2: device gone");
}

struct CountingSink {
    seen: std::sync::Arc<std::sync::Mutex<Vec<u8>>>,
}

impl rust_bf::hooks::OutputSink for CountingSink {
    fn send(&self, bytes: &[u8]) -> Result<(), std::io::Error> {
        let mut seen = self.seen.lock().unwrap();
        if seen.len() >= 2 {
            return Err(std::io::Error::new(std::io::ErrorKind::BrokenPipe, "pipe closed"));
        }
        seen.extend_from_slice(bytes);
        Ok(())
    }
}

#[test]
fn failing_sink_ends_the_run_with_an_io_error() {
    let seen = std::sync::Arc::new(std::sync::Mutex::new(Vec::new()));
    let mut bf = BrainfuckReader::new("+.+.+.+.".to_string());
    bf.install_output_sink(Box::new(CountingSink { seen: seen.clone() }));
    let result = bf.run();
    match &result {
        Err(BrainfuckReaderError::IoError { ip, source }) => {
            assert_eq!(*ip, 5);
            assert_eq!(source.kind(), std::io::ErrorKind::BrokenPipe);
        }
        other => panic!("unexpected {other:?}"),
    }
    assert_eq!(*seen.lock().unwrap(), vec![1u8, 2]);
    assert_eq!(bf.memory()[0], 3);
    assert!(bf.output().is_empty());
}

#[test]
fn installed_sink_object_receives_output() {
    let seen = std::sync::Arc::new(std::sync::Mutex::new(Vec::new()));
    let mut bf = BrainfuckReader::new("+++.".to_string());
    bf.install_output_sink(Box::new(CountingSink { seen: seen.clone() }));
    assert!(bf.run().is_ok());
    assert_eq!(*seen.lock().unwrap(), vec![3u8]);
}

#[test]
fn observer_sees_the_window_around_the_pointer_after_every_instruction() {
    let seen = std::sync::Arc::new(std::sync::Mutex::new(Vec::<(usize, usize, Vec<u8>)>::new()));
    let log = seen.clone();
    let mut bf = BrainfuckReader::new_with_memory("+>>+>>+".to_string(), 5);
    bf.set_tape_observer(2, move |ptr: usize, base: usize, window: &[u8]| {
        log.lock().unwrap().push((ptr, base, window.to_vec()));
    });
    assert!(bf.run().is_ok());
    let seen = seen.lock().unwrap();
    assert_eq!(
        *seen,
        vec![
            (0, 0, vec![1, 0]),
            (1, 0, vec![1, 0]),
            (2, 2, vec![0, 0]),
            (2, 2, vec![1, 0]),
            (3, 2, vec![1, 0]),
            (4, 4, vec![0]),
            (4, 4, vec![1]),
        ]
    );
}

#[test]
fn observer_window_of_zero_counts_as_one() {
    let seen = std::sync::Arc::new(std::sync::Mutex::new(Vec::<(usize, usize, Vec<u8>)>::new()));
    let log = seen.clone();
    let mut bf = BrainfuckReader::new_with_memory(">+".to_string(), 3);
    bf.set_tape_observer(0, move |ptr: usize, base: usize, window: &[u8]| {
        log.lock().unwrap().push((ptr, base, window.to_vec()));
    });
    assert!(bf.run().is_ok());
    assert_eq!(*seen.lock().unwrap(), vec![(1, 1, vec![0]), (1, 1, vec![1])]);
}

#[test]
fn new_reader_has_thirty_thousand_zeroed_cells() {
    let bf = BrainfuckReader::new("+".to_string());
    assert_eq!(bf.memory().len(), 30000);
    assert!(bf.memory().iter().all(|&cell| cell == 0));
    assert_eq!(bf.pointer(), 0);
    assert_eq!(bf.code(), "+");
    assert!(bf.output().is_empty());
    assert!(bf.trace().is_empty());
}

#[test]
fn program_text_is_read_by_code_points() {
    let mut bf = BrainfuckReader::new("+é+".to_string());
    assert!(matches!(bf.run(), Err(BrainfuckReaderError::InvalidCharacter { ch: 'é', ip: 1 })));
}

#[test]
fn error_messages() {
    assert_eq!(
        BrainfuckReaderError::PointerOutOfBounds { ip: 4, ptr: 0, op: '<' }.message(),
        "Pointer out of bounds at instruction 4 (ptr=0, op='<')"
    );
    assert_eq!(
        BrainfuckReaderError::InvalidCharacter { ch: 'a', ip: 12 }.message(),
        "Invalid character: 'a' at instruction 12"
    );
    assert_eq!(
        BrainfuckReaderError::UnmatchedBrackets { ip: 3, kind: UnmatchedBracketKind::Close }.message(),
        "Unmatched bracket ']' at instruction 3"
    );
    assert_eq!(
        BrainfuckReaderError::UnmatchedBrackets { ip: 0, kind: UnmatchedBracketKind::Open }.message(),
        "Unmatched bracket '[' at instruction 0"
    );
    assert_eq!(
        BrainfuckReaderError::StepLimitExceeded { limit: 50 }.message(),
        "Execution aborted: step limit exceeded (50)"
    );
    assert_eq!(BrainfuckReaderError::Canceled.message(), "Execution aborted: cancelled");
}
