//! Interpreter that keeps the source characters as they are and resolves
//! loops while running, with a stack of open loops and a forward scan for
//! the close that matches an open on a zero cell.
//!
//! The meaning of a program is the spec state machine [`run_flat`]: one
//! instruction is dispatched per step, and execution aborts with
//! [`ExecuteError::InfiniteLoop`] once [`STEP_LIMIT`] instructions have
//! been dispatched, or at once when a loop close jumps back to an empty
//! body over a non-zero cell. As in the tree-shaped interpreter, a data
//! pointer driven off the tape and output that is not well-formed text
//! are promoted to errors of their own.

use vstd::prelude::*;
use vstd::utf8::{decode_utf8, valid_utf8};
use crate::brainfuck::{STEP_LIMIT, SourceFault, all_ops, balanced, bytes_to_string, depth,
    lemma_scan_none_iff_well_formed, scan};

verus! {

broadcast use vstd::seq::group_seq_axioms, vstd::std_specs::vec::group_vec_axioms;

#[derive(Debug, Eq, PartialEq)]
pub enum ParseError {
    UnknownInstruction { location: i32, instruction: char },
    UnmatchedLoop { location: i32 },
}

#[derive(Debug, Eq, PartialEq)]
pub enum ExecuteError {
    /// An input instruction ran with the input exhausted.
    NoInputLeft,
    /// The step ceiling was reached, or a loop with an empty body was
    /// re-entered on a non-zero cell.
    InfiniteLoop,
    /// The data pointer left the tape; a fatal condition promoted to an
    /// error so that execution is total.
    TapeBoundsExceeded,
    /// The output bytes are not well-formed text; promoted likewise.
    MalformedOutput,
}

/// A parsed program: the validated source characters.
#[derive(Debug, Eq, PartialEq)]
pub struct Program {
    code: Vec<char>,
}

impl View for Program {
    type V = Seq<char>;

    closed spec fn view(&self) -> Seq<char> {
        self.code@
    }
}

impl Program {
    /// Only validated text ever becomes a program: every character is an
    /// instruction and the loop markers are balanced.
    pub open spec fn wf(self) -> bool {
        all_ops(self@) && balanced(self@)
    }
}

/// The parse error reported for a fault found by [`scan`]; positions are
/// reported as `i32`.
pub open spec fn fault_to_error(f: SourceFault) -> ParseError {
    match f {
        SourceFault::BadChar { at, c } => ParseError::UnknownInstruction {
            location: at as i32,
            instruction: c,
        },
        SourceFault::StrayClose { at } => ParseError::UnmatchedLoop { location: at as i32 },
        SourceFault::OpenLoop { at } => ParseError::UnmatchedLoop { location: at as i32 },
    }
}

/// Parses source text into a program.
///
/// A single scan checks every character and matches the loop markers; the
/// program keeps the text as it is. On failure the error is the first
/// fault of the left-to-right [`scan`]: an unknown character, a stray
/// loop close, or — when the text ends with loops still open — the
/// innermost unclosed open, each with its position in characters.
pub fn parse_program(program_text: &str) -> (r: Result<Program, ParseError>)
    requires
        program_text@.len() <= i32::MAX,
    ensures
        match r {
            Ok(prog) => {
                &&& scan(program_text@, 0, Seq::<int>::empty()) is None
                &&& prog@ == program_text@
                &&& prog.wf()
            },
            Err(e) => scan(program_text@, 0, Seq::<int>::empty()) matches Some(f) && e
                == fault_to_error(f),
        },
{
    let n = program_text.unicode_len();
    let mut loop_stack: Vec<usize> = Vec::new();
    let mut code: Vec<char> = Vec::new();
    let mut i: usize = 0;

    proof {
        assert(loop_stack@.map_values(|x: usize| x as int) =~= Seq::<int>::empty());
        assert(code@ =~= program_text@.subrange(0, 0));
    }

    while i < n
        invariant
            i <= n == program_text@.len(),
            n <= i32::MAX,
            code@ == program_text@.subrange(0, i as int),
            forall|m: int|
                0 <= m < loop_stack@.len() ==> 0 <= #[trigger] loop_stack@[m] < i,
            scan(program_text@, 0, Seq::<int>::empty()) == scan(
                program_text@,
                i as int,
                loop_stack@.map_values(|x: usize| x as int),
            ),
        decreases n - i,
    {
        let c = program_text.get_char(i);
        let ghost stk: Seq<int> = loop_stack@.map_values(|x: usize| x as int);
        match c {
            '[' => {
                loop_stack.push(i);
                proof {
                    assert(loop_stack@.map_values(|x: usize| x as int) =~= stk.push(i as int));
                }
            },
            ']' => {
                match loop_stack.pop() {
                    Some(_) => {
                        proof {
                            assert(loop_stack@.map_values(|x: usize| x as int) =~= stk.drop_last());
                        }
                    },
                    None => {
                        return Err(ParseError::UnmatchedLoop { location: i as i32 });
                    },
                }
            },
            '>' | '<' | '+' | '-' | '.' | ',' => {},
            _ => {
                return Err(ParseError::UnknownInstruction { location: i as i32, instruction: c });
            },
        }
        code.push(c);
        proof {
            assert(code@ =~= program_text@.subrange(0, i + 1));
        }
        i = i + 1;
    }

    if loop_stack.len() > 0 {
        let location = loop_stack[loop_stack.len() - 1];
        proof {
            let stk = loop_stack@.map_values(|x: usize| x as int);
            assert(stk.last() == location as int);
        }
        return Err(ParseError::UnmatchedLoop { location: location as i32 });
    }

    proof {
        assert(loop_stack@.map_values(|x: usize| x as int) =~= Seq::<int>::empty());
        assert(code@ =~= program_text@);
        lemma_scan_none_iff_well_formed(program_text@);
    }
    Ok(Program { code })
}

/// The state of a run: the tape and data pointer, the input and its
/// cursor, the output, the instruction position, the stack of open
/// loops, and the count of dispatched instructions.
#[verifier::ext_equal]
pub struct FlatState {
    pub tape: Seq<u8>,
    pub dp: int,
    pub input: Seq<u8>,
    pub cursor: int,
    pub output: Seq<u8>,
    pub idx: int,
    pub stack: Seq<usize>,
    pub executed: int,
}

/// What a run ends in: normal completion, an abort — or a configuration
/// with no step, which validated programs never reach.
pub enum FlatOutcome {
    Done(FlatState),
    Abort(ExecuteError),
    Stuck,
}

/// The data pointer rests on a tape cell.
pub open spec fn in_tape(st: FlatState) -> bool {
    0 <= st.dp < st.tape.len()
}

/// The position just past the loop close that matches an open, scanning
/// from `from` with `opened` loop opens still unmatched.
pub open spec fn find_close(code: Seq<char>, from: int, opened: int) -> Option<int>
    decreases code.len() - from,
{
    if from < 0 || from >= code.len() {
        None
    } else if code[from] == ']' && opened == 0 {
        Some(from)
    } else if code[from] == ']' {
        find_close(code, from + 1, opened - 1)
    } else if code[from] == '[' {
        find_close(code, from + 1, opened + 1)
    } else {
        find_close(code, from + 1, opened)
    }
}

/// The initial state of a run.
pub open spec fn flat_init(input: Seq<u8>, tape: Seq<u8>) -> FlatState {
    FlatState {
        tape,
        dp: 0,
        input,
        cursor: 0,
        output: Seq::empty(),
        idx: 0,
        stack: Seq::empty(),
        executed: 0,
    }
}

/// Runs the program to completion or abort. Each dispatched instruction
/// counts one step; a run that would dispatch more than [`STEP_LIMIT`]
/// instructions aborts. Cell arithmetic wraps at the byte boundary; an
/// input instruction checks the input before it touches the tape; a loop
/// close jumping straight back to itself over a non-zero cell aborts at
/// once as a loop with no progress.
pub open spec fn run_flat(code: Seq<char>, st: FlatState) -> FlatOutcome
    decreases (if st.executed < STEP_LIMIT {
        STEP_LIMIT - st.executed
    } else {
        0
    }),
{
    if st.idx < 0 || st.idx >= code.len() {
        FlatOutcome::Done(st)
    } else if st.executed >= STEP_LIMIT {
        FlatOutcome::Abort(ExecuteError::InfiniteLoop)
    } else {
        let st1 = FlatState { executed: st.executed + 1, ..st };
        let c = code[st.idx];
        if c == '>' {
            if st1.dp + 1 >= st1.tape.len() {
                FlatOutcome::Abort(ExecuteError::TapeBoundsExceeded)
            } else {
                run_flat(code, FlatState { dp: st1.dp + 1, idx: st1.idx + 1, ..st1 })
            }
        } else if c == '<' {
            if st1.dp < 1 {
                FlatOutcome::Abort(ExecuteError::TapeBoundsExceeded)
            } else {
                run_flat(code, FlatState { dp: st1.dp - 1, idx: st1.idx + 1, ..st1 })
            }
        } else if c == '+' {
            if !in_tape(st1) {
                FlatOutcome::Abort(ExecuteError::TapeBoundsExceeded)
            } else {
                run_flat(
                    code,
                    FlatState {
                        tape: st1.tape.update(st1.dp, ((st1.tape[st1.dp] + 1) % 256) as u8),
                        idx: st1.idx + 1,
                        ..st1
                    },
                )
            }
        } else if c == '-' {
            if !in_tape(st1) {
                FlatOutcome::Abort(ExecuteError::TapeBoundsExceeded)
            } else {
                run_flat(
                    code,
                    FlatState {
                        tape: st1.tape.update(st1.dp, ((st1.tape[st1.dp] + 255) % 256) as u8),
                        idx: st1.idx + 1,
                        ..st1
                    },
                )
            }
        } else if c == '.' {
            if !in_tape(st1) {
                FlatOutcome::Abort(ExecuteError::TapeBoundsExceeded)
            } else {
                run_flat(
                    code,
                    FlatState { output: st1.output.push(st1.tape[st1.dp]), idx: st1.idx + 1, ..st1 },
                )
            }
        } else if c == ',' {
            if st1.cursor < 0 || st1.cursor >= st1.input.len() {
                FlatOutcome::Abort(ExecuteError::NoInputLeft)
            } else if !in_tape(st1) {
                FlatOutcome::Abort(ExecuteError::TapeBoundsExceeded)
            } else {
                run_flat(
                    code,
                    FlatState {
                        tape: st1.tape.update(st1.dp, st1.input[st1.cursor]),
                        cursor: st1.cursor + 1,
                        idx: st1.idx + 1,
                        ..st1
                    },
                )
            }
        } else if c == '[' {
            if !in_tape(st1) {
                FlatOutcome::Abort(ExecuteError::TapeBoundsExceeded)
            } else if st1.tape[st1.dp] != 0 {
                run_flat(code, FlatState { stack: st1.stack.push(st.idx as usize), idx: st1.idx + 1, ..st1 })
            } else {
                match find_close(code, st1.idx + 1, 0) {
                    Some(close) => run_flat(code, FlatState { idx: close + 1, ..st1 }),
                    None => FlatOutcome::Stuck,
                }
            }
        } else if c == ']' {
            if !in_tape(st1) {
                FlatOutcome::Abort(ExecuteError::TapeBoundsExceeded)
            } else if st1.tape[st1.dp] != 0 {
                if st1.stack.len() == 0 {
                    FlatOutcome::Stuck
                } else if st1.stack.last() + 1 == st1.idx {
                    FlatOutcome::Abort(ExecuteError::InfiniteLoop)
                } else {
                    run_flat(code, FlatState { idx: st1.stack.last() + 1, ..st1 })
                }
            } else {
                if st1.stack.len() == 0 {
                    FlatOutcome::Stuck
                } else {
                    run_flat(code, FlatState { stack: st1.stack.drop_last(), idx: st1.idx + 1, ..st1 })
                }
            }
        } else {
            FlatOutcome::Stuck
        }
    }
}

/// In balanced text an open with more depth than unmatched opens always
/// has its close ahead, at the expected depth.
proof fn lemma_find_close_some(code: Seq<char>, from: int, opened: int)
    requires
        0 <= from <= code.len(),
        0 <= opened < depth(code, from),
        depth(code, code.len() as int) == 0,
    ensures
        find_close(code, from, opened) matches Some(close) && from <= close < code.len() && code[
            close
        ] == ']' && depth(code, close + 1) == depth(code, from) - opened - 1,
    decreases code.len() - from,
{
    assert(from < code.len());
    assert(depth(code, from + 1) == depth(code, from) + (if code[from] == '[' {
        1int
    } else if code[from] == ']' {
        -1int
    } else {
        0int
    }));
    if code[from] == ']' && opened == 0 {
    } else if code[from] == ']' {
        lemma_find_close_some(code, from + 1, opened - 1);
    } else if code[from] == '[' {
        lemma_find_close_some(code, from + 1, opened + 1);
    } else {
        lemma_find_close_some(code, from + 1, opened);
    }
}

/// The stack bookkeeping that holds throughout a run of validated text:
/// the stack holds exactly the opens of the loops entered so far, one per
/// depth level.
pub open spec fn stack_ok(code: Seq<char>, st: FlatState) -> bool {
    &&& 0 <= st.idx <= code.len()
    &&& st.stack.len() == depth(code, st.idx)
    &&& forall|m: int|
        0 <= m < st.stack.len() ==> {
            &&& 0 <= #[trigger] st.stack[m] < code.len()
            &&& code[st.stack[m] as int] == '['
            &&& depth(code, st.stack[m] as int) == m
        }
}

/// A program that starts by reading input aborts with
/// [`ExecuteError::NoInputLeft`] when run on empty input, whatever the
/// tape holds.
pub proof fn lemma_read_on_empty_input_aborts(code: Seq<char>, tape: Seq<u8>)
    requires
        code == seq![','],
    ensures
        run_flat(code, flat_init(Seq::empty(), tape)) == FlatOutcome::Abort(
            ExecuteError::NoInputLeft,
        ),
{
    assert(code[0] == ',');
}

/// A loop with an empty body entered on a non-zero cell is detected as a
/// loop with no progress: one increment followed by an empty loop aborts
/// with [`ExecuteError::InfiniteLoop`] on empty input, for every tape
/// with at least one cell that does not wrap to zero.
pub proof fn lemma_empty_loop_aborts(code: Seq<char>, tape: Seq<u8>)
    requires
        code == seq!['+', '[', ']'],
        tape.len() > 0,
        tape[0] != 255,
    ensures
        run_flat(code, flat_init(Seq::empty(), tape)) == FlatOutcome::Abort(
            ExecuteError::InfiniteLoop,
        ),
{
    reveal_with_fuel(run_flat, 4);
    assert(code[0] == '+' && code[1] == '[' && code[2] == ']');
}

/// The state the executor's local variables stand for.
pub open spec fn flat_abs(
    tape: Seq<u8>,
    dp: int,
    input: Seq<u8>,
    cursor: int,
    output: Seq<u8>,
    idx: int,
    stack: Seq<usize>,
    executed: int,
) -> FlatState {
    FlatState { tape, dp, input, cursor, output, idx, stack, executed }
}

impl Program {
    /// Runs the program against the given input bytes and data tape, and
    /// returns the output decoded as text, or the error the run aborted
    /// with — exactly the outcome of [`run_flat`] from the initial state.
    pub fn execute(self, input: Vec<u8>, data: Vec<u8>) -> (r: Result<String, ExecuteError>)
        requires
            self.wf(),
        ensures
            match r {
                Ok(text) => run_flat(self@, flat_init(input@, data@)) matches FlatOutcome::Done(st)
                    && valid_utf8(st.output) && text@ == decode_utf8(st.output),
                Err(e) => (run_flat(self@, flat_init(input@, data@)) matches FlatOutcome::Done(st)
                    && !valid_utf8(st.output) && e == ExecuteError::MalformedOutput) || run_flat(
                    self@,
                    flat_init(input@, data@),
                ) == FlatOutcome::Abort(e),
            },
    {
        let ghost code: Seq<char> = self@;
        let ghost init: FlatState = flat_init(input@, data@);

        if self.code.is_empty() {
            proof {
                assert(run_flat(code, init) == FlatOutcome::Done(init));
                assert(valid_utf8(init.output));
                assert(decode_utf8(init.output) =~= Seq::<char>::empty());
                reveal_strlit("");
                assert(""@ =~= Seq::<char>::empty());
            }
            return Ok(String::from_str(""));
        }

        let n = self.code.len();
        let mut data = data;
        let mut inst_idx: usize = 0;
        let mut inst_input: usize = 0;
        let mut data_idx: usize = 0;
        let mut loop_stack: Vec<usize> = Vec::new();
        let mut output_bytes: Vec<u8> = Vec::new();
        let mut executed: u32 = 0;

        #[verifier::loop_isolation(false)]
        while inst_idx < n
            invariant
                code == self.code@,
                n == code.len(),
                all_ops(code),
                balanced(code),
                executed <= STEP_LIMIT,
                stack_ok(
                    code,
                    flat_abs(
                        data@,
                        data_idx as int,
                        input@,
                        inst_input as int,
                        output_bytes@,
                        inst_idx as int,
                        loop_stack@,
                        executed as int,
                    ),
                ),
                run_flat(code, init) == run_flat(
                    code,
                    flat_abs(
                        data@,
                        data_idx as int,
                        input@,
                        inst_input as int,
                        output_bytes@,
                        inst_idx as int,
                        loop_stack@,
                        executed as int,
                    ),
                ),
            decreases STEP_LIMIT - executed,
        {
            let ghost pre: FlatState = flat_abs(
                data@,
                data_idx as int,
                input@,
                inst_input as int,
                output_bytes@,
                inst_idx as int,
                loop_stack@,
                executed as int,
            );

            if executed >= STEP_LIMIT {
                return Err(ExecuteError::InfiniteLoop);
            }
            executed = executed + 1;
            proof {
                assert(flat_abs(
                    data@,
                    data_idx as int,
                    input@,
                    inst_input as int,
                    output_bytes@,
                    inst_idx as int,
                    loop_stack@,
                    executed as int,
                ) =~= (FlatState { executed: pre.executed + 1, ..pre }));
            }
            let ghost st1: FlatState = FlatState { executed: pre.executed + 1, ..pre };
            let ghost nxt: int = inst_idx + 1;
            proof {
                assert(depth(code, nxt) == depth(code, inst_idx as int) + (if code[inst_idx as int]
                    == '[' {
                    1int
                } else if code[inst_idx as int] == ']' {
                    -1int
                } else {
                    0int
                }));
            }

            let inst = self.code[inst_idx];
            match inst {
                '>' => {
                    let len = data.len();
                    if data_idx >= len || data_idx + 1 >= len {
                        return Err(ExecuteError::TapeBoundsExceeded);
                    }
                    data_idx = data_idx + 1;
                    proof {
                        assert(flat_abs(
                            data@,
                            data_idx as int,
                            input@,
                            inst_input as int,
                            output_bytes@,
                            nxt,
                            loop_stack@,
                            executed as int,
                        ) =~= (FlatState { dp: st1.dp + 1, idx: st1.idx + 1, ..st1 }));
                    }
                },
                '<' => {
                    if data_idx == 0 {
                        return Err(ExecuteError::TapeBoundsExceeded);
                    }
                    data_idx = data_idx - 1;
                    proof {
                        assert(flat_abs(
                            data@,
                            data_idx as int,
                            input@,
                            inst_input as int,
                            output_bytes@,
                            nxt,
                            loop_stack@,
                            executed as int,
                        ) =~= (FlatState { dp: st1.dp - 1, idx: st1.idx + 1, ..st1 }));
                    }
                },
                '+' => {
                    if data_idx >= data.len() {
                        return Err(ExecuteError::TapeBoundsExceeded);
                    }
                    let v = data[data_idx];
                    data[data_idx] = v.wrapping_add(1);
                    proof {
                        assert(flat_abs(
                            data@,
                            data_idx as int,
                            input@,
                            inst_input as int,
                            output_bytes@,
                            nxt,
                            loop_stack@,
                            executed as int,
                        ) =~= (FlatState {
                            tape: st1.tape.update(st1.dp, ((st1.tape[st1.dp] + 1) % 256) as u8),
                            idx: st1.idx + 1,
                            ..st1
                        }));
                    }
                },
                '-' => {
                    if data_idx >= data.len() {
                        return Err(ExecuteError::TapeBoundsExceeded);
                    }
                    let v = data[data_idx];
                    data[data_idx] = v.wrapping_sub(1);
                    proof {
                        assert(flat_abs(
                            data@,
                            data_idx as int,
                            input@,
                            inst_input as int,
                            output_bytes@,
                            nxt,
                            loop_stack@,
                            executed as int,
                        ) =~= (FlatState {
                            tape: st1.tape.update(st1.dp, ((st1.tape[st1.dp] + 255) % 256) as u8),
                            idx: st1.idx + 1,
                            ..st1
                        }));
                    }
                },
                '.' => {
                    if data_idx >= data.len() {
                        return Err(ExecuteError::TapeBoundsExceeded);
                    }
                    let v = data[data_idx];
                    output_bytes.push(v);
                    proof {
                        assert(flat_abs(
                            data@,
                            data_idx as int,
                            input@,
                            inst_input as int,
                            output_bytes@,
                            nxt,
                            loop_stack@,
                            executed as int,
                        ) =~= (FlatState {
                            output: st1.output.push(st1.tape[st1.dp]),
                            idx: st1.idx + 1,
                            ..st1
                        }));
                    }
                },
                ',' => {
                    if inst_input >= input.len() {
                        return Err(ExecuteError::NoInputLeft);
                    }
                    if data_idx >= data.len() {
                        return Err(ExecuteError::TapeBoundsExceeded);
                    }
                    let b = input[inst_input];
                    data[data_idx] = b;
                    inst_input = inst_input + 1;
                    proof {
                        assert(flat_abs(
                            data@,
                            data_idx as int,
                            input@,
                            inst_input as int,
                            output_bytes@,
                            nxt,
                            loop_stack@,
                            executed as int,
                        ) =~= (FlatState {
                            tape: st1.tape.update(st1.dp, st1.input[st1.cursor]),
                            cursor: st1.cursor + 1,
                            idx: st1.idx + 1,
                            ..st1
                        }));
                    }
                },
                '[' => {
                    if data_idx >= data.len() {
                        return Err(ExecuteError::TapeBoundsExceeded);
                    }
                    if data[data_idx] != 0 {
                        loop_stack.push(inst_idx);
                        proof {
                            assert(flat_abs(
                                data@,
                                data_idx as int,
                                input@,
                                inst_input as int,
                                output_bytes@,
                                nxt,
                                loop_stack@,
                                executed as int,
                            ) =~= (FlatState {
                                stack: st1.stack.push(pre.idx as usize),
                                idx: st1.idx + 1,
                                ..st1
                            }));
                        }
                    } else {
                        // Scan ahead for the matching close; balanced text
                        // always has one.
                        proof {
                            lemma_find_close_some(code, inst_idx + 1, 0);
                        }
                        let mut j = inst_idx + 1;
                        let mut opened: usize = 0;
                        while j < n && !(self.code[j] == ']' && opened == 0)
                            invariant
                                code == self.code@,
                                n == code.len(),
                                inst_idx + 1 <= j <= n,
                                opened <= j,
                                find_close(code, inst_idx + 1, 0) == find_close(
                                    code,
                                    j as int,
                                    opened as int,
                                ),
                                find_close(code, inst_idx + 1, 0) is Some,
                            decreases n - j,
                        {
                            let c2 = self.code[j];
                            if c2 == ']' {
                                opened = opened - 1;
                            } else if c2 == '[' {
                                opened = opened + 1;
                            }
                            j = j + 1;
                        }
                        if j >= n {
                            proof {
                                assert(find_close(code, j as int, opened as int) is None);
                                assert(false);
                            }
                            return Err(ExecuteError::InfiniteLoop);
                        }
                        proof {
                            assert(find_close(code, inst_idx + 1, 0) == Some(j as int));
                        }
                        inst_idx = j + 1;
                        proof {
                            assert(flat_abs(
                                data@,
                                data_idx as int,
                                input@,
                                inst_input as int,
                                output_bytes@,
                                inst_idx as int,
                                loop_stack@,
                                executed as int,
                            ) =~= (FlatState { idx: j + 1, ..st1 }));
                        }
                        continue ;
                    }
                },
                ']' => {
                    if data_idx >= data.len() {
                        return Err(ExecuteError::TapeBoundsExceeded);
                    }
                    if data[data_idx] != 0 {
                        if loop_stack.len() == 0 {
                            proof {
                                assert(depth(code, nxt) == -1);
                                assert(false);
                            }
                            return Err(ExecuteError::InfiniteLoop);
                        }
                        let idx0 = loop_stack[loop_stack.len() - 1];
                        // A close jumping straight back to its own open
                        // makes no progress: fail at once.
                        if idx0 + 1 == inst_idx {
                            return Err(ExecuteError::InfiniteLoop);
                        }
                        inst_idx = idx0 + 1;
                        proof {
                            assert(st1.stack.last() == idx0);
                            assert(flat_abs(
                                data@,
                                data_idx as int,
                                input@,
                                inst_input as int,
                                output_bytes@,
                                inst_idx as int,
                                loop_stack@,
                                executed as int,
                            ) =~= (FlatState { idx: st1.stack.last() + 1, ..st1 }));
                            assert(depth(code, idx0 + 1) == depth(code, idx0 as int) + 1);
                        }
                        continue ;
                    } else {
                        if loop_stack.len() == 0 {
                            proof {
                                assert(depth(code, nxt) == -1);
                                assert(false);
                            }
                            return Err(ExecuteError::InfiniteLoop);
                        }
                        loop_stack.pop();
                        proof {
                            assert(flat_abs(
                                data@,
                                data_idx as int,
                                input@,
                                inst_input as int,
                                output_bytes@,
                                nxt,
                                loop_stack@,
                                executed as int,
                            ) =~= (FlatState {
                                stack: st1.stack.drop_last(),
                                idx: st1.idx + 1,
                                ..st1
                            }));
                        }
                    }
                },
                _ => {
                    proof {
                        assert(crate::brainfuck::is_op(code[inst_idx as int]));
                        assert(false);
                    }
                    return Err(ExecuteError::InfiniteLoop);
                },
            }
            inst_idx = inst_idx + 1;
        }

        match bytes_to_string(output_bytes) {
            Some(text) => Ok(text),
            None => Err(ExecuteError::MalformedOutput),
        }
    }
}

} // verus!
