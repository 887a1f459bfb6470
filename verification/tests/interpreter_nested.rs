use katas::brainfuck::nested::{parse_program, ExecuteError, ParseError};

fn check_output(program_text: &str, input: &str, expected_output: &str) {
    let program = parse_program(program_text);
    match program {
        Ok(program) => {
            let result = program
                .execute(input.to_string().into_bytes(), vec![0; 30000])
                .expect(&format!("Cannot execute program {program_text}"));
            assert_eq!(result, expected_output);
        }
        Err(error) => {
            panic!("Error occurred while parsing program {program_text}: {error:?}");
        }
    }
}

#[test]
fn or_interpret_parse_empty() {
    check_output("", "", "");
}

#[test]
fn or_interpret_parse_unknown_instruction() {
    assert!(matches!(
        parse_program(">p"),
        Err(ParseError::UnknownInstruction {
            location: 1,
            instruction: 'p'
        })
    ));
}

#[test]
fn or_interpret_parse_unmatched_loop_start() {
    assert_eq!(
        parse_program(">++[+>][++>"),
        Err(ParseError::UnmatchedLoop { location: 7 })
    );
}

#[test]
fn or_interpret_parse_unmatched_loop_end() {
    assert_eq!(
        parse_program(">++[+>][++>]+]"),
        Err(ParseError::UnmatchedLoop { location: 13 })
    );
}

#[test]
fn or_interpret_missing_input() {
    let program = parse_program(",").unwrap();
    let result = program.execute(vec![], vec![0; 30000]);
    assert_eq!(result, Err(ExecuteError::NoInputLeft));
}

#[test]
fn or_interpret_infinite_loop() {
    let program = parse_program("+[]").unwrap();
    let result = program.execute(vec![], vec![0; 30000]);
    assert_eq!(result, Err(ExecuteError::InfiniteLoop));
}

#[test]
fn or_interpret_copy_input() {
    check_output(",.>,.>,.>,.>,.", "hello", "hello");
}

#[test]
fn or_interpret_output_exclamation_mark() {
    check_output("+++++++++++++++++++++++++++++++++.", "", "!");
}

#[test]
fn or_interpret_three_exclamation_marks() {
    check_output(">+++++++++++++++++++++++++++++++++<+++[>.<-]", "", "!!!");
}

#[test]
fn or_interpret_hello_world() {
    check_output(
        "++++++++[>++++[>++>+++>+++>+<<<<-]>+>+>->>+[<]<-]>>.>---.+++++++..+++.>>.<-.<.+++.------.--------.>>+.>++.",
        "",
        "Hello World!\n",
    );
}

#[test]
fn nested_balanced_source_runs() {
    // Text of operator characters with balanced loop markers parses, and
    // a loop-terminating program runs to completion on a zeroed tape.
    let program = parse_program("+->.<[-]").unwrap();
    let result = program.execute(vec![], vec![0; 16]);
    assert_eq!(result, Ok("\0".to_string()));
}

#[test]
fn nested_thirty_five_increments() {
    // 35 increments stay far from the byte boundary and print '#'.
    check_output("+++++++++++++++++++++++++++++++++++.", "", "#");
}

#[test]
fn nested_pointer_off_tape() {
    let program = parse_program("<").unwrap();
    let result = program.execute(vec![], vec![0; 8]);
    assert_eq!(result, Err(ExecuteError::TapeBoundsExceeded));
}

#[test]
fn nested_advance_off_tape() {
    let program = parse_program(">>>").unwrap();
    let result = program.execute(vec![], vec![0; 2]);
    assert_eq!(result, Err(ExecuteError::TapeBoundsExceeded));
}

#[test]
fn nested_output_beyond_text() {
    // 128 increments put a byte in the output that is no well-formed
    // text on its own.
    let mut source = String::new();
    for _ in 0..128 {
        source.push('+');
    }
    source.push('.');
    let program = parse_program(&source).unwrap();
    let result = program.execute(vec![], vec![0; 8]);
    assert_eq!(result, Err(ExecuteError::MalformedOutput));
}

#[test]
fn nested_cell_wraps_at_byte_boundary() {
    // 255 increments, one more wraps to zero, and a decrement wraps back
    // to 255: read it out through the input copy of a known byte.
    let mut source = String::new();
    for _ in 0..256 {
        source.push('+');
    }
    source.push('-');
    source.push_str(">,."); // keep the output well-formed
    let program = parse_program(&source).unwrap();
    let result = program.execute(vec![b'a'], vec![0; 8]);
    assert_eq!(result, Ok("a".to_string()));
}

#[test]
fn nested_reparse_same_program() {
    let source = ">++[+>][++>]";
    let first = parse_program(source).unwrap();
    let second = parse_program(source).unwrap();
    assert_eq!(first, second);
}

#[test]
fn nested_step_ceiling_aborts() {
    // A loop that keeps working on a neighbouring cell but never clears
    // its own guard cell: the step ceiling cuts it off.
    let program = parse_program("+[>+<]").unwrap();
    let result = program.execute(vec![], vec![0; 8]);
    assert_eq!(result, Err(ExecuteError::InfiniteLoop));
}
