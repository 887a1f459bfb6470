use katas::brainfuck::flat::{parse_program, ExecuteError, ParseError};

fn check_output(program_text: &str, input: &str, expected_output: &str) {
    let program = parse_program(program_text);
    match program {
        Ok(program) => {
            let result = program
                .execute(input.to_string().into_bytes(), vec![0; 30000])
                .unwrap_or_else(|_| panic!("Cannot execute program {program_text}"));
            assert_eq!(result, expected_output);
        }
        Err(error) => {
            panic!("Error occurred while parsing program {program_text}: {error:?}");
        }
    }
}

#[test]
fn ifraixedes_parse_empty() {
    check_output("", "", "");
}

#[test]
fn ifraixedes_parse_unknown_instruction() {
    assert!(matches!(
        parse_program(">p"),
        Err(ParseError::UnknownInstruction {
            location: 1,
            instruction: 'p'
        })
    ));
}

#[test]
fn ifraixedes_parse_unmatched_loop_start() {
    assert_eq!(
        parse_program(">++[+>][++>"),
        Err(ParseError::UnmatchedLoop { location: 7 })
    );
}

#[test]
fn ifraixedes_parse_unmatched_loop_end() {
    assert_eq!(
        parse_program(">++[+>][++>]+]"),
        Err(ParseError::UnmatchedLoop { location: 13 })
    );
}

#[test]
fn ifraixedes_missing_input() {
    let program = parse_program(",").unwrap();
    let result = program.execute(vec![], vec![0; 30000]);
    assert_eq!(result, Err(ExecuteError::NoInputLeft));
}

#[test]
fn ifraixedes_infinite_loop() {
    let program = parse_program("+[]").unwrap();
    let result = program.execute(vec![], vec![0; 30000]);
    assert_eq!(result, Err(ExecuteError::InfiniteLoop));
}

#[test]
fn ifraixedes_copy_input() {
    check_output(",.>,.>,.>,.>,.", "hello", "hello");
}

#[test]
fn ifraixedes_output_exclamation_mark() {
    check_output("+++++++++++++++++++++++++++++++++.", "", "!");
}

#[test]
fn ifraixedes_three_exclamation_marks() {
    check_output(">+++++++++++++++++++++++++++++++++<+++[>.<-]", "", "!!!");
}

#[test]
fn ifraixedes_hello_world() {
    check_output("++++++++[>++++[>++>+++>+++>+<<<<-]>+>+>->>+[<]<-]>>.>---.+++++++..+++.>>.<-.<.+++.------.--------.>>+.>++.", "", "Hello World!\n");
}

#[test]
fn flat_balanced_source_runs() {
    let program = parse_program("+->.<[-]").unwrap();
    let result = program.execute(vec![], vec![0; 16]);
    assert_eq!(result, Ok("\0".to_string()));
}

#[test]
fn flat_thirty_five_increments() {
    check_output("+++++++++++++++++++++++++++++++++++.", "", "#");
}

#[test]
fn flat_pointer_off_tape() {
    let program = parse_program("<").unwrap();
    let result = program.execute(vec![], vec![0; 8]);
    assert_eq!(result, Err(ExecuteError::TapeBoundsExceeded));
}

#[test]
fn flat_output_beyond_text() {
    let mut source = String::new();
    for _ in 0..128 {
        source.push('+');
    }
    source.push('.');
    let program = parse_program(&source).unwrap();
    let result = program.execute(vec![], vec![0; 8]);
    assert_eq!(result, Err(ExecuteError::MalformedOutput));
}

#[test]
fn flat_cell_wraps_at_byte_boundary() {
    let mut source = String::new();
    for _ in 0..256 {
        source.push('+');
    }
    source.push('-');
    source.push_str(">,.");
    let program = parse_program(&source).unwrap();
    let result = program.execute(vec![b'a'], vec![0; 8]);
    assert_eq!(result, Ok("a".to_string()));
}

#[test]
fn flat_reparse_same_program() {
    let source = ">++[+>][++>]";
    let first = parse_program(source).unwrap();
    let second = parse_program(source).unwrap();
    assert_eq!(first, second);
}

#[test]
fn flat_step_ceiling_aborts() {
    let program = parse_program("+[>+<]").unwrap();
    let result = program.execute(vec![], vec![0; 8]);
    assert_eq!(result, Err(ExecuteError::InfiniteLoop));
}

#[test]
fn flat_skips_loop_on_zero_cell() {
    // A zero guard cell jumps past the matching close, nested loops and
    // all.
    check_output("[[-]+.],.", "a", "a");
}
