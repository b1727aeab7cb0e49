use rust_bf::BrainfuckWriter;
use rust_bf::WriterOptions;

#[test]
fn simple_hello() {
    let input = "Hello World!".as_bytes();
    let writer = BrainfuckWriter::new(input);
    let output = writer.generate().unwrap();
    assert!(output.contains('.'));
    assert!(output.len() > 0);
}

#[test]
fn zero_and_repeat() {
    let options = WriterOptions {
        use_loops: true,
        max_loop_factor: 16,
        assume_wrapping_u8: true,
    };
    let input = &[0u8, 0u8, 0u8];
    let writer = BrainfuckWriter::with_options(&*input, options);
    let output = writer.generate().unwrap();
    assert_eq!(output, "...");
    assert_eq!(output.matches('.').count(), 3);
}

fn run_generated(code: &str, cells: usize) -> Vec<u8> {
    let mut bf = rust_bf::BrainfuckReader::new_with_memory(code.to_string(), cells);
    let result = bf.run();
    assert!(result.is_ok(), "{result:?} for {code}");
    assert_eq!(bf.pointer(), 0);
    bf.output().clone()
}

fn options(use_loops: bool, max_loop_factor: u8, assume_wrapping_u8: bool) -> WriterOptions {
    WriterOptions { use_loops, max_loop_factor, assume_wrapping_u8 }
}

#[test]
fn write_then_read_roundtrip_plus_plus_plus_dot() {
    let writer = BrainfuckWriter::new("+++.".as_bytes());
    let mut output = writer.generate().unwrap();
    output.push('\n');
    let generated_code = output.trim_end().to_string();
    assert!(!generated_code.is_empty(), "writer should produce code");
    let mut stdout = String::from_utf8(run_generated(&generated_code, 30000)).expect("utf8");
    stdout.push('\n');
    assert_eq!(stdout, "+++.\n");
}

#[test]
fn three_zero_bytes_give_three_dots() {
    let writer = BrainfuckWriter::new(&[0u8, 0, 0]);
    let code = writer.generate().unwrap();
    assert_eq!(code.matches('.').count(), 3);
    assert_eq!(run_generated(&code, 2), vec![0u8, 0, 0]);
}

#[test]
fn default_options() {
    let defaults = WriterOptions::default();
    assert!(defaults.use_loops);
    assert_eq!(defaults.max_loop_factor, 16);
    assert!(defaults.assume_wrapping_u8);
}

#[test]
fn round_trip_of_every_byte_after_every_tenth_byte() {
    for wrapping in [true, false] {
        for (use_loops, factor) in [(true, 16u8), (true, 255), (true, 0), (false, 16)] {
            for cursor in (0..=255u8).step_by(10) {
                for target in 0..=255u8 {
                    let bytes = [cursor, target];
                    let writer =
                        BrainfuckWriter::with_options(&bytes, options(use_loops, factor, wrapping));
                    let code = writer.generate().unwrap();
                    assert_eq!(run_generated(&code, 2), bytes.to_vec());
                }
            }
        }
    }
}

#[test]
fn round_trip_of_texts() {
    for text in ["", "A", "Hello World!", "tape\u{0}\u{ff}\n", "zzzzzzzzzzzzzzzzzzzzaaaaaaaaaaaaaaaaa", "\u{7f}\u{80}"] {
        let writer = BrainfuckWriter::new(text.as_bytes());
        let code = writer.generate().unwrap();
        assert_eq!(run_generated(&code, 30000), text.as_bytes().to_vec());
        assert!(code.chars().all(|c| "><+-.,[]".contains(c)));
        assert!(!code.contains(','));
    }
    let all: Vec<u8> = (0..=255u8).rev().collect();
    let code = BrainfuckWriter::new(&all).generate().unwrap();
    assert_eq!(run_generated(&code, 2), all);
}

#[test]
fn a_loop_encoding_needs_a_second_cell() {
    let code = BrainfuckWriter::new(&[100u8]).generate().unwrap();
    assert!(code.contains('>'));
    let mut bf = rust_bf::BrainfuckReader::new_with_memory(code, 1);
    assert!(matches!(
        bf.run(),
        Err(rust_bf::BrainfuckReaderError::PointerOutOfBounds { op: '>', .. })
    ));
    let plain = BrainfuckWriter::with_options(&[100u8], options(false, 16, true)).generate().unwrap();
    assert_eq!(plain, format!("{}.", "+".repeat(100)));
    assert_eq!(run_generated(&plain, 1), vec![100u8]);
}

#[test]
fn delta_takes_the_shorter_way_round_the_ring() {
    let w = BrainfuckWriter::new(&[]);
    assert_eq!(w.encode_delta(0, 0), "");
    assert_eq!(w.encode_delta(7, 7), "");
    assert_eq!(w.encode_delta(0, 3), "+++");
    assert_eq!(w.encode_delta(3, 0), "---");
    assert_eq!(w.encode_delta(0, 255), "-");
    assert_eq!(w.encode_delta(255, 0), "+");
    assert_eq!(w.encode_delta(250, 4), "++++++++++");
    assert_eq!(w.encode_delta(0, 128), "+".repeat(128));
    assert_eq!(w.encode_delta(128, 0), "+".repeat(128));
    assert_eq!(w.encode_delta(0, 129), "-".repeat(127));
    assert_eq!(w.encode_delta(0, 127), "+".repeat(127));
}

#[test]
fn delta_without_wrapping_takes_the_direct_way() {
    let w = BrainfuckWriter::with_options(&[], options(true, 16, false));
    assert_eq!(w.encode_delta(0, 255), "+".repeat(255));
    assert_eq!(w.encode_delta(255, 0), "-".repeat(255));
    assert_eq!(w.encode_delta(250, 4), "-".repeat(246));
    assert_eq!(w.encode_delta(9, 9), "");
}

fn loop_text_by_floats(target: u8, a: u8) -> String {
    let b_f = (target as f32) / (a as f32);
    let mut b = b_f.round() as i32;
    if b < 1 {
        b = 1;
    }
    if b > 255 {
        b = 255;
    }
    let prod = (a as i32) * b;
    let mut seq = String::new();
    seq.push_str("[-]");
    seq.push_str(">[-]<");
    seq.push_str(&"+".repeat(a as usize));
    seq.push('[');
    seq.push('>');
    seq.push_str(&"+".repeat(b as usize));
    seq.push('<');
    seq.push('-');
    seq.push(']');
    seq.push('>');
    let r = (target as i32) - prod;
    if r > 0 {
        seq.push_str(&"+".repeat(r as usize));
    } else if r < 0 {
        seq.push_str(&"-".repeat((-r) as usize));
    }
    seq.push_str("[<+>-");
    seq.push(']');
    seq.push('<');
    seq
}

fn from_zero_by_floats(target: u8, use_loops: bool, max_loop_factor: u8) -> String {
    let mut best = String::from("[-]");
    best.push_str(&"+".repeat(target as usize));
    if !use_loops || target == 0 {
        return best;
    }
    let mut best_len = best.len();
    for a in 1..=max_loop_factor {
        let seq = loop_text_by_floats(target, a);
        if seq.len() < best_len {
            best_len = seq.len();
            best = seq;
        }
    }
    best
}

#[test]
fn zero_build_agrees_with_rounding_in_floating_point_for_every_target_and_factor() {
    for factor in [0u8, 1, 2, 3, 7, 16, 100, 255] {
        let w = BrainfuckWriter::with_options(&[], options(true, factor, true));
        for target in 0..=255u8 {
            assert_eq!(w.encode_from_zero(target), from_zero_by_floats(target, true, factor));
        }
    }
    let w = BrainfuckWriter::with_options(&[], options(false, 16, true));
    for target in 0..=255u8 {
        assert_eq!(w.encode_from_zero(target), from_zero_by_floats(target, false, 16));
    }
}

#[test]
fn nearest_quotient_is_the_rounded_quotient_for_every_pair() {
    for a in 1..=255u32 {
        for target in 0..=255u32 {
            let rounded = ((target as f32) / (a as f32)).round() as u32;
            assert_eq!((2 * target + a) / (2 * a), rounded);
        }
    }
}

#[test]
fn zero_build_examples() {
    let w = BrainfuckWriter::new(&[]);
    assert_eq!(w.encode_from_zero(0), "[-]");
    assert_eq!(w.encode_from_zero(1), "[-]+");
    assert_eq!(w.encode_from_zero(10), "[-]++++++++++");
    assert_eq!(w.encode_from_zero(65), "[-]>[-]<++++++++[>++++++++<-]>+[<+>-]<");
    assert_eq!(w.encode_from_zero(255), "[-]>[-]<+++++++++++++++[>+++++++++++++++++<-]>[<+>-]<");
    let narrow = BrainfuckWriter::with_options(&[], options(true, 2, true));
    assert_eq!(
        narrow.encode_from_zero(255),
        format!("[-]>[-]<++[>{}<-]>-[<+>-]<", "+".repeat(128))
    );
}

#[test]
fn each_byte_is_encoded_from_the_byte_before() {
    let code = BrainfuckWriter::new(b"AB@").generate().unwrap();
    assert_eq!(code, "[-]>[-]<++++++++[>++++++++<-]>+[<+>-]<.+.--.");
    let code = BrainfuckWriter::new(&[3, 3, 1]).generate().unwrap();
    assert_eq!(code, "+++..--.");
    // On a tie the delta encoding stands.
    let code = BrainfuckWriter::new(&[4]).generate().unwrap();
    assert_eq!(code, "++++.");
    let code = BrainfuckWriter::new(&[255, 0]).generate().unwrap();
    assert_eq!(code, "-.+.");
}
