//! Interpreter with a tree-shaped program: every loop owns its body.
//!
//! The meaning of a program is given by the spec state machine
//! [`run_seq`] / [`run_instr`] / [`run_loop`]: one instruction is
//! dispatched at a time, each dispatch (loop re-entry checks included)
//! counts one step, and execution aborts with [`ExecuteError::InfiniteLoop`]
//! the instant the step count would reach [`STEP_LIMIT`]. Two conditions
//! that would otherwise be fatal are promoted to errors of their own:
//! driving the data pointer off the tape
//! ([`ExecuteError::TapeBoundsExceeded`]) and output bytes that are not
//! well-formed text ([`ExecuteError::MalformedOutput`]).

use vstd::prelude::*;
use vstd::utf8::{decode_utf8, valid_utf8};
use crate::brainfuck::{STEP_LIMIT, SourceFault, balanced, bytes_to_string, depth,
    lemma_balanced_concat, lemma_depth_concat, lemma_depth_one, lemma_depth_prefix, scan};

verus! {

broadcast use vstd::seq::group_seq_axioms, vstd::std_specs::vec::group_vec_axioms;

#[derive(Debug, PartialEq, Eq, Clone)]
pub enum ParseError {
    UnknownInstruction { location: usize, instruction: char },
    UnmatchedLoop { location: usize },
}

#[derive(Debug, PartialEq, Eq, Clone)]
pub enum ExecuteError {
    /// An input instruction ran with the input exhausted.
    NoInputLeft,
    /// The step ceiling was reached, or a loop with an empty body was
    /// entered on a non-zero cell.
    InfiniteLoop,
    /// The data pointer left the tape. A program that does this breaks
    /// its side of the bargain; the condition is promoted to an error so
    /// that execution is total.
    TapeBoundsExceeded,
    /// The output bytes are not well-formed text; promoted likewise.
    MalformedOutput,
}

/// One instruction of the language; a loop owns its body outright.
#[derive(Debug, PartialEq, Eq)]
pub enum Instruction {
    Increment,
    Decrement,
    Advance,
    Back,
    Output,
    Input,
    Block(Block),
}

/// The body of a loop.
#[derive(Debug, PartialEq, Eq)]
pub struct Block {
    instructions: Vec<Instruction>,
}

impl View for Block {
    type V = Seq<Instruction>;

    closed spec fn view(&self) -> Seq<Instruction> {
        self.instructions@
    }
}

impl Block {
    fn new(instructions: Vec<Instruction>) -> (b: Block)
        ensures
            b@ == instructions@,
    {
        Block { instructions }
    }
}

/// A parsed program: the top-level instruction sequence.
#[derive(Debug, PartialEq, Eq)]
pub struct Program {
    instructions: Vec<Instruction>,
}

impl View for Program {
    type V = Seq<Instruction>;

    closed spec fn view(&self) -> Seq<Instruction> {
        self.instructions@
    }
}

/// The source text an instruction prints back to.
pub open spec fn flat_one(inst: Instruction) -> Seq<char>
    decreases inst, 0nat,
{
    match inst {
        Instruction::Increment => seq!['+'],
        Instruction::Decrement => seq!['-'],
        Instruction::Advance => seq!['>'],
        Instruction::Back => seq!['<'],
        Instruction::Output => seq!['.'],
        Instruction::Input => seq![','],
        Instruction::Block(b) => seq!['['] + flatten_from(b@, 0) + seq![']'],
    }
}

/// The source text `instrs[i..]` prints back to.
pub open spec fn flatten_from(instrs: Seq<Instruction>, i: int) -> Seq<char>
    decreases instrs, (if i < instrs.len() { instrs.len() - i } else { 0 }),
{
    if i < 0 || i >= instrs.len() {
        Seq::empty()
    } else {
        flat_one(instrs[i]) + flatten_from(instrs, i + 1)
    }
}

/// The source text an instruction sequence prints back to. A successful
/// parse returns the unique program that prints back to its input.
pub open spec fn flatten(instrs: Seq<Instruction>) -> Seq<char> {
    flatten_from(instrs, 0)
}

/// The parse error reported for a fault found by [`scan`].
pub open spec fn fault_to_error(f: SourceFault) -> ParseError {
    match f {
        SourceFault::BadChar { at, c } => ParseError::UnknownInstruction {
            location: at as usize,
            instruction: c,
        },
        SourceFault::StrayClose { at } => ParseError::UnmatchedLoop { location: at as usize },
        SourceFault::OpenLoop { at } => ParseError::UnmatchedLoop { location: at as usize },
    }
}

/// Appending an instruction appends its printed text.
proof fn lemma_flatten_push(instrs: Seq<Instruction>, x: Instruction, i: int)
    requires
        0 <= i <= instrs.len(),
    ensures
        flatten_from(instrs.push(x), i) == flatten_from(instrs, i) + flat_one(x),
    decreases instrs.len() - i,
{
    if i == instrs.len() {
        assert(instrs.push(x)[i] == x);
        assert(flatten_from(instrs.push(x), i + 1) == Seq::<char>::empty());
        assert(flatten_from(instrs.push(x), i) == flat_one(x) + Seq::<char>::empty());
        assert(flatten_from(instrs.push(x), i) =~= flatten_from(instrs, i) + flat_one(x));
    } else {
        lemma_flatten_push(instrs, x, i + 1);
        assert(instrs.push(x)[i] == instrs[i]);
        assert(flatten_from(instrs.push(x), i) =~= flatten_from(instrs, i) + flat_one(x));
    }
}

/// One instruction prints to at least one character, with balanced loop
/// markers, and its first character tells its variant.
proof fn lemma_flat_one_balanced(inst: Instruction)
    ensures
        flat_one(inst).len() >= 1,
        balanced(flat_one(inst)),
        (flat_one(inst)[0] == '[') == (inst is Block),
    decreases inst, 1nat,
{
    match inst {
        Instruction::Block(b) => {
            lemma_flatten_balanced(b@, 0);
            let inner = flatten_from(b@, 0);
            let opened = seq!['['] + inner;
            let s = flat_one(inst);
            assert(s =~= opened + seq![']']);
            lemma_depth_one('[');
            lemma_depth_one(']');
            lemma_depth_prefix(seq!['['], inner, 1);
            assert(depth(opened, 1) == 1);
            lemma_depth_concat(seq!['['], inner, inner.len() as int);
            assert(depth(opened, opened.len() as int) == 1);
            lemma_depth_concat(opened, seq![']'], 1);
            assert(depth(s, s.len() as int) == 0);
            assert forall|j: int| 0 <= j <= s.len() implies depth(s, j) >= 0 by {
                if j <= opened.len() {
                    lemma_depth_prefix(opened, seq![']'], j);
                    if j > 0 {
                        lemma_depth_concat(seq!['['], inner, j - 1);
                        assert(depth(opened, j) == 1 + depth(inner, j - 1));
                    }
                } else {
                    lemma_depth_concat(opened, seq![']'], j - opened.len());
                }
            }
        },
        _ => {
            let s = flat_one(inst);
            assert(s.len() == 1 && s[0] != '[' && s[0] != ']');
            assert(depth(s, 0) == 0);
            assert(depth(s, 1) == 0);
            assert forall|j: int| 0 <= j <= s.len() implies depth(s, j) >= 0 by {
                assert(j == 0 || j == 1);
            }
        },
    }
}

/// The printed text of an instruction sequence has balanced loop
/// markers.
proof fn lemma_flatten_balanced(instrs: Seq<Instruction>, i: int)
    ensures
        balanced(flatten_from(instrs, i)),
    decreases instrs, 0nat, (if i < instrs.len() { instrs.len() - i } else { 0 }),
{
    if i < 0 || i >= instrs.len() {
        assert(balanced(Seq::<char>::empty()));
    } else {
        lemma_flat_one_balanced(instrs[i]);
        lemma_flatten_balanced(instrs, i + 1);
        lemma_balanced_concat(flat_one(instrs[i]), flatten_from(instrs, i + 1));
    }
}

/// A balanced stretch of text followed by a loop close is determined by
/// the whole: two such decompositions of the same text agree.
proof fn lemma_balanced_split(x: Seq<char>, u: Seq<char>, y: Seq<char>, v: Seq<char>)
    requires
        x + seq![']'] + u == y + seq![']'] + v,
        balanced(x),
        balanced(y),
    ensures
        x == y,
        u == v,
{
    let s = x + seq![']'] + u;
    lemma_depth_one(']');
    if x.len() < y.len() {
        lemma_depth_concat(x, seq![']'], 1);
        lemma_depth_prefix(x + seq![']'], u, x.len() as int + 1);
        assert(depth(s, x.len() as int + 1) == -1);
        lemma_depth_prefix(y + seq![']'], v, x.len() as int + 1);
        lemma_depth_prefix(y, seq![']'], x.len() as int + 1);
        assert(depth(s, x.len() as int + 1) >= 0);
        assert(false);
    }
    if y.len() < x.len() {
        lemma_depth_concat(y, seq![']'], 1);
        lemma_depth_prefix(y + seq![']'], v, y.len() as int + 1);
        assert(depth(s, y.len() as int + 1) == -1);
        lemma_depth_prefix(x + seq![']'], u, y.len() as int + 1);
        lemma_depth_prefix(x, seq![']'], y.len() as int + 1);
        assert(depth(s, y.len() as int + 1) >= 0);
        assert(false);
    }
    assert forall|k: int| 0 <= k < x.len() implies x[k] == y[k] by {
        assert(x[k] == (x + seq![']'] + u)[k]);
        assert(y[k] == (y + seq![']'] + v)[k]);
    }
    assert(x =~= y);
    assert((x + seq![']'] + u).len() == x.len() + 1 + u.len());
    assert((y + seq![']'] + v).len() == y.len() + 1 + v.len());
    assert(u.len() == v.len());
    assert forall|k: int| 0 <= k < u.len() implies u[k] == v[k] by {
        assert((x + seq![']'] + u)[x.len() + 1 + k] == u[k]);
        assert((y + seq![']'] + v)[y.len() + 1 + k] == v[k]);
    }
    assert(u =~= v);
}

/// The same instruction, compared structurally: loops are compared body
/// by body.
pub open spec fn inst_equiv(x: Instruction, y: Instruction) -> bool
    decreases x,
{
    match (x, y) {
        (Instruction::Increment, Instruction::Increment) => true,
        (Instruction::Decrement, Instruction::Decrement) => true,
        (Instruction::Advance, Instruction::Advance) => true,
        (Instruction::Back, Instruction::Back) => true,
        (Instruction::Output, Instruction::Output) => true,
        (Instruction::Input, Instruction::Input) => true,
        (Instruction::Block(p), Instruction::Block(q)) => seqs_equiv(p@, q@),
        _ => false,
    }
}

/// The same instruction sequence, compared structurally element by
/// element.
pub open spec fn seqs_equiv(a: Seq<Instruction>, b: Seq<Instruction>) -> bool
    decreases a,
{
    &&& a.len() == b.len()
    &&& forall|k: int| 0 <= k < a.len() ==> inst_equiv(#[trigger] a[k], b[k])
}

/// Sequences that print to the same text agree instruction by
/// instruction from the given positions on.
proof fn lemma_unflatten(a: Seq<Instruction>, b: Seq<Instruction>, i: int, j: int)
    requires
        0 <= i <= a.len(),
        0 <= j <= b.len(),
        flatten_from(a, i) == flatten_from(b, j),
    ensures
        a.len() - i == b.len() - j,
        forall|k: int| 0 <= k < a.len() - i ==> inst_equiv(#[trigger] a[i + k], b[j + k]),
    decreases a, (if i < a.len() { a.len() - i } else { 0 }),
{
    if i == a.len() {
        if j < b.len() {
            lemma_flat_one_balanced(b[j]);
            assert(flatten_from(b, j).len() >= flat_one(b[j]).len());
            assert(false);
        }
    } else if j == b.len() {
        lemma_flat_one_balanced(a[i]);
        assert(flatten_from(a, i).len() >= flat_one(a[i]).len());
        assert(false);
    } else {
        let xa = flat_one(a[i]);
        let ra = flatten_from(a, i + 1);
        let xb = flat_one(b[j]);
        let rb = flatten_from(b, j + 1);
        lemma_flat_one_balanced(a[i]);
        lemma_flat_one_balanced(b[j]);
        assert(xa[0] == (xa + ra)[0] && xb[0] == (xb + rb)[0]);

        if a[i] is Block && b[j] is Block {
            match (a[i], b[j]) {
                (Instruction::Block(p), Instruction::Block(q)) => {
                    let fa = flatten_from(p@, 0);
                    let fb = flatten_from(q@, 0);
                    assert(xa == seq!['['] + fa + seq![']']);
                    assert(xb == seq!['['] + fb + seq![']']);
                    assert((xa + ra).drop_first() =~= fa + seq![']'] + ra);
                    assert((xb + rb).drop_first() =~= fb + seq![']'] + rb);
                    lemma_flatten_balanced(p@, 0);
                    lemma_flatten_balanced(q@, 0);
                    lemma_balanced_split(fa, ra, fb, rb);
                    lemma_unflatten(p@, q@, 0, 0);
                    assert forall|k: int| 0 <= k < p@.len() implies inst_equiv(
                        #[trigger] p@[k],
                        q@[k],
                    ) by {
                        assert(inst_equiv(p@[0 + k], q@[0 + k]));
                    }
                    assert(seqs_equiv(p@, q@));
                    assert(inst_equiv(a[i], b[j]));
                    lemma_unflatten(a, b, i + 1, j + 1);
                },
                _ => {
                    assert(false);
                },
            }
        } else if a[i] is Block || b[j] is Block {
            // One side starts a loop and the other does not: the first
            // characters cannot agree.
            assert(false);
        } else {
            assert(xa.len() == 1 && xb.len() == 1);
            assert(xa[0] == xb[0]);
            match a[i] {
                Instruction::Increment => {
                    assert(xa == seq!['+']);
                    match b[j] {
                        Instruction::Increment => {
                            assert(inst_equiv(a[i], b[j]));
                        },
                        _ => {
                            assert(xb[0] != '+');
                            assert(false);
                        },
                    }
                },
                Instruction::Decrement => {
                    assert(xa == seq!['-']);
                    match b[j] {
                        Instruction::Decrement => {
                            assert(inst_equiv(a[i], b[j]));
                        },
                        _ => {
                            assert(xb[0] != '-');
                            assert(false);
                        },
                    }
                },
                Instruction::Advance => {
                    assert(xa == seq!['>']);
                    match b[j] {
                        Instruction::Advance => {
                            assert(inst_equiv(a[i], b[j]));
                        },
                        _ => {
                            assert(xb[0] != '>');
                            assert(false);
                        },
                    }
                },
                Instruction::Back => {
                    assert(xa == seq!['<']);
                    match b[j] {
                        Instruction::Back => {
                            assert(inst_equiv(a[i], b[j]));
                        },
                        _ => {
                            assert(xb[0] != '<');
                            assert(false);
                        },
                    }
                },
                Instruction::Output => {
                    assert(xa == seq!['.']);
                    match b[j] {
                        Instruction::Output => {
                            assert(inst_equiv(a[i], b[j]));
                        },
                        _ => {
                            assert(xb[0] != '.');
                            assert(false);
                        },
                    }
                },
                Instruction::Input => {
                    assert(xa == seq![',']);
                    match b[j] {
                        Instruction::Input => {
                            assert(inst_equiv(a[i], b[j]));
                        },
                        _ => {
                            assert(xb[0] != ',');
                            assert(false);
                        },
                    }
                },
                Instruction::Block(_) => {
                    assert(false);
                },
            }
            assert(inst_equiv(a[i], b[j]));
            assert((xa + ra).len() == 1 + ra.len());
            assert((xb + rb).len() == 1 + rb.len());
            assert forall|k: int| 0 <= k < ra.len() implies ra[k] == rb[k] by {
                assert((xa + ra)[1 + k] == ra[k]);
                assert((xb + rb)[1 + k] == rb[k]);
            }
            assert(ra =~= rb);
            lemma_unflatten(a, b, i + 1, j + 1);
        }

        assert forall|k: int| 0 <= k < a.len() - i implies inst_equiv(
            #[trigger] a[i + k],
            b[j + k],
        ) by {
            if k > 0 {
                assert(inst_equiv(a[(i + 1) + (k - 1)], b[(j + 1) + (k - 1)]));
            }
        }
    }
}

/// The printed text determines the program: two instruction sequences
/// that print back to the same source text are structurally identical.
/// Together with the parse contract this pins the round trip down: a
/// parsed program is the one program whose text is the parsed input.
pub proof fn lemma_flatten_injective(a: Seq<Instruction>, b: Seq<Instruction>)
    requires
        flatten(a) == flatten(b),
    ensures
        seqs_equiv(a, b),
{
    lemma_unflatten(a, b, 0, 0);
    assert forall|k: int| 0 <= k < a.len() implies inst_equiv(#[trigger] a[k], b[k]) by {
        assert(inst_equiv(a[0 + k], b[0 + k]));
    }
}

/// The state of a run: the tape, the data pointer, the input with its
/// cursor, the output gathered so far, and the number of dispatched
/// instructions.
#[verifier::ext_equal]
pub struct State {
    pub tape: Seq<u8>,
    pub dp: int,
    pub input: Seq<u8>,
    pub cursor: int,
    pub output: Seq<u8>,
    pub steps: int,
}

/// What a piece of a run ends in: a next state, or an abort.
pub enum Outcome {
    Next(State),
    Abort(ExecuteError),
}

/// The data pointer rests on a tape cell.
pub open spec fn in_tape(st: State) -> bool {
    0 <= st.dp < st.tape.len()
}

/// Counts one dispatched instruction and aborts the instant the count
/// reaches the ceiling.
pub open spec fn tick(st: State) -> Outcome {
    let st2 = State { steps: st.steps + 1, ..st };
    if st2.steps >= STEP_LIMIT {
        Outcome::Abort(ExecuteError::InfiniteLoop)
    } else {
        Outcome::Next(st2)
    }
}

/// The steps that remain below the ceiling.
pub open spec fn fuel_of(st: State) -> nat {
    if st.steps < STEP_LIMIT {
        (STEP_LIMIT - st.steps) as nat
    } else {
        0
    }
}

/// The effect of one instruction, not counting its own dispatch step.
/// Cell arithmetic wraps at the byte boundary; an input instruction
/// checks the input before it touches the tape.
pub open spec fn run_instr(inst: Instruction, st: State) -> Outcome
    decreases inst, 1nat, 0nat,
{
    match inst {
        Instruction::Increment => if !in_tape(st) {
            Outcome::Abort(ExecuteError::TapeBoundsExceeded)
        } else {
            Outcome::Next(
                State { tape: st.tape.update(st.dp, ((st.tape[st.dp] + 1) % 256) as u8), ..st },
            )
        },
        Instruction::Decrement => if !in_tape(st) {
            Outcome::Abort(ExecuteError::TapeBoundsExceeded)
        } else {
            Outcome::Next(
                State { tape: st.tape.update(st.dp, ((st.tape[st.dp] + 255) % 256) as u8), ..st },
            )
        },
        Instruction::Advance => if st.dp + 1 >= st.tape.len() {
            Outcome::Abort(ExecuteError::TapeBoundsExceeded)
        } else {
            Outcome::Next(State { dp: st.dp + 1, ..st })
        },
        Instruction::Back => if st.dp < 1 {
            Outcome::Abort(ExecuteError::TapeBoundsExceeded)
        } else {
            Outcome::Next(State { dp: st.dp - 1, ..st })
        },
        Instruction::Output => if !in_tape(st) {
            Outcome::Abort(ExecuteError::TapeBoundsExceeded)
        } else {
            Outcome::Next(State { output: st.output.push(st.tape[st.dp]), ..st })
        },
        Instruction::Input => if st.cursor < 0 || st.cursor >= st.input.len() {
            Outcome::Abort(ExecuteError::NoInputLeft)
        } else if !in_tape(st) {
            Outcome::Abort(ExecuteError::TapeBoundsExceeded)
        } else {
            Outcome::Next(
                State {
                    tape: st.tape.update(st.dp, st.input[st.cursor]),
                    cursor: st.cursor + 1,
                    ..st
                },
            )
        },
        Instruction::Block(b) => if !in_tape(st) {
            Outcome::Abort(ExecuteError::TapeBoundsExceeded)
        } else {
            run_loop(b@, st, fuel_of(st))
        },
    }
}

/// Runs `instrs[i..]`, dispatching each instruction and counting its
/// step.
pub open spec fn run_seq(instrs: Seq<Instruction>, i: int, st: State) -> Outcome
    decreases instrs, 0nat, (if i < instrs.len() { instrs.len() - i } else { 0 }),
{
    if i < 0 || i >= instrs.len() {
        Outcome::Next(st)
    } else {
        match run_instr(instrs[i], st) {
            Outcome::Abort(e) => Outcome::Abort(e),
            Outcome::Next(st1) => match tick(st1) {
                Outcome::Abort(e) => Outcome::Abort(e),
                Outcome::Next(st2) => run_seq(instrs, i + 1, st2),
            },
        }
    }
}

/// Runs a loop standing on a non-empty tape: while the current cell is
/// not zero, the body runs and the re-entry check counts a step. The
/// `fuel` argument only bounds the recursion; called with at least
/// [`fuel_of`] of the state, it never runs out before the step ceiling
/// aborts the run.
pub open spec fn run_loop(body: Seq<Instruction>, st: State, fuel: nat) -> Outcome
    decreases body, fuel, 1nat,
{
    if !in_tape(st) {
        Outcome::Abort(ExecuteError::TapeBoundsExceeded)
    } else if st.tape[st.dp] == 0 {
        Outcome::Next(st)
    } else if fuel == 0 {
        Outcome::Abort(ExecuteError::InfiniteLoop)
    } else {
        match run_seq(body, 0, st) {
            Outcome::Abort(e) => Outcome::Abort(e),
            Outcome::Next(st1) => match tick(st1) {
                Outcome::Abort(e) => Outcome::Abort(e),
                Outcome::Next(st2) => run_loop(body, st2, (fuel - 1) as nat),
            },
        }
    }
}

/// The state a run starts in.
pub open spec fn init_state(input: Seq<u8>, tape: Seq<u8>) -> State {
    State { tape, dp: 0, input, cursor: 0, output: Seq::empty(), steps: 0 }
}

/// Parses the body of the loop whose `[` stands at `from - 1`, up to and
/// including the matching `]`. The ghost `stack` holds the opens of the
/// enclosing loops; the ensures clause moves the scan of the remaining
/// text past the parsed body.
fn parse_block(s: &str, from: usize, n: usize, Ghost(stack): Ghost<Seq<int>>) -> (r: Result<
    (Block, usize),
    ParseError,
>)
    requires
        1 <= from <= s@.len(),
        n == s@.len(),
        s@[from - 1] == '[',
    ensures
        match r {
            Ok((block, next)) => {
                &&& from < next <= s@.len()
                &&& s@[next - 1] == ']'
                &&& flatten(block@) == s@.subrange(from as int, next - 1)
                &&& scan(s@, from as int, stack.push(from - 1)) == scan(s@, next as int, stack)
            },
            Err(e) => scan(s@, from as int, stack.push(from - 1)) matches Some(f) && e
                == fault_to_error(f),
        },
    decreases s@.len() - from,
{
    let mut instructions: Vec<Instruction> = Vec::new();
    let ghost open: int = from - 1;
    let mut j: usize = from;

    while j < n
        invariant
            from <= j <= n == s@.len(),
            1 <= from,
            s@[from - 1] == '[',
            open == from - 1,
            scan(s@, from as int, stack.push(open)) == scan(s@, j as int, stack.push(open)),
            flatten(instructions@) == s@.subrange(from as int, j as int),
        decreases n - j,
    {
        let c = s.get_char(j);
        let ghost pre: Seq<Instruction> = instructions@;
        match c {
            '+' => instructions.push(Instruction::Increment),
            '-' => instructions.push(Instruction::Decrement),
            '>' => instructions.push(Instruction::Advance),
            '<' => instructions.push(Instruction::Back),
            '.' => instructions.push(Instruction::Output),
            ',' => instructions.push(Instruction::Input),
            '[' => {
                match parse_block(s, j + 1, n, Ghost(stack.push(open))) {
                    Ok((block, next)) => {
                        proof {
                            lemma_flatten_push(pre, Instruction::Block(block), 0);
                            assert(flat_one(Instruction::Block(block)) =~= s@.subrange(
                                j as int,
                                next as int,
                            ));
                            assert(flatten(pre.push(Instruction::Block(block))) =~= s@.subrange(
                                from as int,
                                next as int,
                            ));
                        }
                        instructions.push(Instruction::Block(block));
                        j = next;
                        continue ;
                    },
                    Err(e) => {
                        return Err(e);
                    },
                }
            },
            ']' => {
                proof {
                    assert((stack.push(open)).drop_last() =~= stack);
                }
                return Ok((Block::new(instructions), j + 1));
            },
            _ => {
                return Err(
                    ParseError::UnknownInstruction { location: j, instruction: c },
                );
            },
        }
        proof {
            lemma_flatten_push(pre, instructions@.last(), 0);
            assert(flat_one(instructions@.last()) =~= s@.subrange(j as int, j + 1));
            assert(flatten(instructions@) =~= s@.subrange(from as int, j + 1));
        }
        j = j + 1;
    }

    Err(ParseError::UnmatchedLoop { location: from - 1 })
}

/// Parses source text into a program.
///
/// On success the returned program prints back to exactly the input (see
/// [`flatten`]), which pins it down uniquely. On failure the error is the
/// first fault of the left-to-right [`scan`]: an unknown character, a
/// stray loop close, or — when the text ends with loops still open — the
/// innermost unclosed open, each with its position in characters.
pub fn parse_program(input: &str) -> (r: Result<Program, ParseError>)
    ensures
        match r {
            Ok(prog) => scan(input@, 0, Seq::<int>::empty()) is None && flatten(prog@) == input@,
            Err(e) => scan(input@, 0, Seq::<int>::empty()) matches Some(f) && e == fault_to_error(
                f,
            ),
        },
{
    let n = input.unicode_len();
    let mut instructions: Vec<Instruction> = Vec::new();
    let mut i: usize = 0;

    while i < n
        invariant
            i <= n == input@.len(),
            scan(input@, 0, Seq::<int>::empty()) == scan(input@, i as int, Seq::<int>::empty()),
            flatten(instructions@) == input@.subrange(0, i as int),
        decreases n - i,
    {
        let c = input.get_char(i);
        let ghost pre: Seq<Instruction> = instructions@;
        match c {
            '+' => instructions.push(Instruction::Increment),
            '-' => instructions.push(Instruction::Decrement),
            '>' => instructions.push(Instruction::Advance),
            '<' => instructions.push(Instruction::Back),
            '.' => instructions.push(Instruction::Output),
            ',' => instructions.push(Instruction::Input),
            '[' => {
                match parse_block(input, i + 1, n, Ghost(Seq::<int>::empty())) {
                    Ok((block, next)) => {
                        proof {
                            lemma_flatten_push(pre, Instruction::Block(block), 0);
                            assert(flat_one(Instruction::Block(block)) =~= input@.subrange(
                                i as int,
                                next as int,
                            ));
                            assert(flatten(pre.push(Instruction::Block(block))) =~= input@.subrange(
                                0,
                                next as int,
                            ));
                        }
                        instructions.push(Instruction::Block(block));
                        i = next;
                        continue ;
                    },
                    Err(e) => {
                        return Err(e);
                    },
                }
            },
            ']' => {
                return Err(ParseError::UnmatchedLoop { location: i });
            },
            _ => {
                return Err(ParseError::UnknownInstruction { location: i, instruction: c });
            },
        }
        proof {
            lemma_flatten_push(pre, instructions@.last(), 0);
            assert(flat_one(instructions@.last()) =~= input@.subrange(i as int, i + 1));
            assert(flatten(instructions@) =~= input@.subrange(0, i + 1));
        }
        i = i + 1;
    }

    proof {
        assert(input@.subrange(0, n as int) =~= input@);
    }
    Ok(Program { instructions })
}

/// What executing a program on the given input and tape returns: the
/// output decoded as text, or the error the run aborted with.
pub open spec fn spec_execute(code: Seq<Instruction>, input: Seq<u8>, tape: Seq<u8>) -> Result<
    Seq<char>,
    ExecuteError,
> {
    match run_seq(code, 0, init_state(input, tape)) {
        Outcome::Abort(e) => Err(e),
        Outcome::Next(st) => if valid_utf8(st.output) {
            Ok(decode_utf8(st.output))
        } else {
            Err(ExecuteError::MalformedOutput)
        },
    }
}

/// A program that starts by reading input aborts with
/// [`ExecuteError::NoInputLeft`] when run on empty input, whatever the
/// tape holds.
pub proof fn lemma_read_on_empty_input_aborts(code: Seq<Instruction>, tape: Seq<u8>)
    requires
        code == seq![Instruction::Input],
    ensures
        spec_execute(code, Seq::empty(), tape) == Err::<Seq<char>, ExecuteError>(
            ExecuteError::NoInputLeft,
        ),
{
    let st0 = init_state(Seq::empty(), tape);
    assert(run_instr(code[0], st0) == Outcome::Abort(ExecuteError::NoInputLeft));
    assert(run_seq(code, 0, st0) == Outcome::Abort(ExecuteError::NoInputLeft));
}

/// A loop with an empty body entered on a non-zero cell is detected as a
/// loop with no progress: one increment followed by an empty loop aborts
/// with [`ExecuteError::InfiniteLoop`] on empty input, for every tape
/// with at least one cell that does not wrap to zero.
pub proof fn lemma_empty_loop_run_aborts(code: Seq<Instruction>, body: Seq<Instruction>, tape: Seq<u8>)
    requires
        code.len() == 2,
        code[0] == Instruction::Increment,
        code[1] matches Instruction::Block(b) && b@ == body,
        body.len() == 0,
        tape.len() > 0,
        tape[0] != 255,
    ensures
        spec_execute(code, Seq::empty(), tape) == Err::<Seq<char>, ExecuteError>(
            ExecuteError::InfiniteLoop,
        ),
{
    let st0 = init_state(Seq::empty(), tape);
    let st1 = State { tape: tape.update(0, ((tape[0] + 1) % 256) as u8), ..st0 };
    assert(run_instr(code[0], st0) == Outcome::Next(st1));
    match tick(st1) {
        Outcome::Next(st2) => {
            assert(st2.tape[st2.dp] != 0);
            match code[1] {
                Instruction::Block(b) => {
                    lemma_empty_loop(b@, st2, fuel_of(st2));
                    assert(run_instr(code[1], st2) == Outcome::Abort(ExecuteError::InfiniteLoop));
                },
                _ => {},
            }
            assert(run_seq(code, 1, st2) == Outcome::Abort(ExecuteError::InfiniteLoop));
            assert(run_seq(code, 0, st0) == Outcome::Abort(ExecuteError::InfiniteLoop));
        },
        Outcome::Abort(_) => {
            assert(false);
        },
    }
}

/// A run only ever adds to the step count.
proof fn lemma_mono_instr(inst: Instruction, st: State)
    ensures
        run_instr(inst, st) matches Outcome::Next(st2) ==> st2.steps >= st.steps,
    decreases inst, 1nat, 0nat,
{
    match inst {
        Instruction::Block(b) => {
            if in_tape(st) {
                lemma_mono_loop(b@, st, fuel_of(st));
            }
        },
        _ => {},
    }
}

proof fn lemma_mono_seq(instrs: Seq<Instruction>, i: int, st: State)
    ensures
        run_seq(instrs, i, st) matches Outcome::Next(st2) ==> st2.steps >= st.steps,
    decreases instrs, 0nat, (if i < instrs.len() { instrs.len() - i } else { 0 }),
{
    if 0 <= i < instrs.len() {
        lemma_mono_instr(instrs[i], st);
        match run_instr(instrs[i], st) {
            Outcome::Next(st1) => match tick(st1) {
                Outcome::Next(st2) => {
                    lemma_mono_seq(instrs, i + 1, st2);
                },
                Outcome::Abort(_) => {},
            },
            Outcome::Abort(_) => {},
        }
    }
}

proof fn lemma_mono_loop(body: Seq<Instruction>, st: State, fuel: nat)
    ensures
        run_loop(body, st, fuel) matches Outcome::Next(st2) ==> st2.steps >= st.steps,
    decreases body, fuel, 1nat,
{
    if in_tape(st) && st.tape[st.dp] != 0 && fuel > 0 {
        lemma_mono_seq(body, 0, st);
        match run_seq(body, 0, st) {
            Outcome::Next(st1) => match tick(st1) {
                Outcome::Next(st2) => {
                    lemma_mono_loop(body, st2, (fuel - 1) as nat);
                },
                Outcome::Abort(_) => {},
            },
            Outcome::Abort(_) => {},
        }
    }
}

/// Any fuel at least as large as the steps left below the ceiling gives
/// a loop run the same outcome: the ceiling aborts before fuel can
/// matter.
proof fn lemma_loop_fuel(body: Seq<Instruction>, st: State, f1: nat, f2: nat)
    requires
        st.steps < STEP_LIMIT,
        f1 >= STEP_LIMIT - st.steps,
        f2 >= STEP_LIMIT - st.steps,
    ensures
        run_loop(body, st, f1) == run_loop(body, st, f2),
    decreases f1,
{
    if in_tape(st) && st.tape[st.dp] != 0 {
        lemma_mono_seq(body, 0, st);
        match run_seq(body, 0, st) {
            Outcome::Next(st1) => match tick(st1) {
                Outcome::Next(st2) => {
                    lemma_loop_fuel(body, st2, (f1 - 1) as nat, (f2 - 1) as nat);
                },
                Outcome::Abort(_) => {},
            },
            Outcome::Abort(_) => {},
        }
    }
}

/// A loop with an empty body entered on a non-zero cell makes no
/// progress: only its re-entry checks count steps, so it runs into the
/// ceiling and aborts.
proof fn lemma_empty_loop(body: Seq<Instruction>, st: State, fuel: nat)
    requires
        body.len() == 0,
        in_tape(st),
        st.tape[st.dp] != 0,
    ensures
        run_loop(body, st, fuel) == Outcome::Abort(ExecuteError::InfiniteLoop),
    decreases fuel,
{
    if fuel > 0 {
        assert(run_seq(body, 0, st) == Outcome::Next(st));
        match tick(st) {
            Outcome::Next(st2) => {
                assert(st2.tape == st.tape && st2.dp == st.dp);
                lemma_empty_loop(body, st2, (fuel - 1) as nat);
                assert(run_loop(body, st, fuel) == run_loop(body, st2, (fuel - 1) as nat));
            },
            Outcome::Abort(e) => {
                assert(e == ExecuteError::InfiniteLoop);
                assert(run_loop(body, st, fuel) == Outcome::Abort(e));
            },
        }
    }
}

/// The running state: the input and its cursor, the tape and the data
/// pointer, the output, and the count of dispatched instructions.
struct Execution {
    input: Vec<u8>,
    data: Vec<u8>,
    output: Vec<u8>,
    ip: usize,
    dp: usize,
    ni: u32,
}

impl View for Execution {
    type V = State;

    closed spec fn view(&self) -> State {
        State {
            tape: self.data@,
            dp: self.dp as int,
            input: self.input@,
            cursor: self.ip as int,
            output: self.output@,
            steps: self.ni as int,
        }
    }
}

/// Dispatches the instructions of `instrs` in order against `exe`,
/// exactly as [`run_seq`] describes.
fn exec_seq(instrs: &Vec<Instruction>, exe: &mut Execution) -> (r: Result<(), ExecuteError>)
    requires
        old(exe)@.steps < STEP_LIMIT,
    ensures
        match r {
            Ok(()) => run_seq(instrs@, 0, old(exe)@) == Outcome::Next(final(exe)@)
                && final(exe)@.steps < STEP_LIMIT,
            Err(e) => run_seq(instrs@, 0, old(exe)@) == Outcome::Abort(e),
        },
    decreases instrs@,
{
    let mut fp: usize = 0;
    let ghost st0: State = exe@;

    while fp < instrs.len()
        invariant
            st0 == old(exe)@,
            fp <= instrs@.len(),
            exe@.steps < STEP_LIMIT,
            run_seq(instrs@, 0, st0) == run_seq(instrs@, fp as int, exe@),
        decreases instrs@.len() - fp,
    {
        let ghost pre: State = exe@;
        let ghost inst: Instruction = instrs@[fp as int];

        match &instrs[fp] {
            Instruction::Increment => {
                if exe.dp >= exe.data.len() {
                    return Err(ExecuteError::TapeBoundsExceeded);
                }
                let v = exe.data[exe.dp];
                exe.data[exe.dp] = v.wrapping_add(1);
                proof {
                    assert(exe@ =~= (State {
                        tape: pre.tape.update(pre.dp, ((pre.tape[pre.dp] + 1) % 256) as u8),
                        ..pre
                    }));
                }
            },
            Instruction::Decrement => {
                if exe.dp >= exe.data.len() {
                    return Err(ExecuteError::TapeBoundsExceeded);
                }
                let v = exe.data[exe.dp];
                exe.data[exe.dp] = v.wrapping_sub(1);
                proof {
                    assert(exe@ =~= (State {
                        tape: pre.tape.update(pre.dp, ((pre.tape[pre.dp] + 255) % 256) as u8),
                        ..pre
                    }));
                }
            },
            Instruction::Advance => {
                let len = exe.data.len();
                if exe.dp >= len || exe.dp + 1 >= len {
                    return Err(ExecuteError::TapeBoundsExceeded);
                }
                exe.dp = exe.dp + 1;
                proof {
                    assert(exe@ =~= (State { dp: pre.dp + 1, ..pre }));
                }
            },
            Instruction::Back => {
                if exe.dp < 1 {
                    return Err(ExecuteError::TapeBoundsExceeded);
                }
                exe.dp = exe.dp - 1;
                proof {
                    assert(exe@ =~= (State { dp: pre.dp - 1, ..pre }));
                }
            },
            Instruction::Output => {
                if exe.dp >= exe.data.len() {
                    return Err(ExecuteError::TapeBoundsExceeded);
                }
                let v = exe.data[exe.dp];
                exe.output.push(v);
                proof {
                    assert(exe@ =~= (State { output: pre.output.push(pre.tape[pre.dp]), ..pre }));
                }
            },
            Instruction::Input => {
                if exe.ip >= exe.input.len() {
                    return Err(ExecuteError::NoInputLeft);
                }
                if exe.dp >= exe.data.len() {
                    return Err(ExecuteError::TapeBoundsExceeded);
                }
                let b = exe.input[exe.ip];
                exe.data[exe.dp] = b;
                exe.ip = exe.ip + 1;
                proof {
                    assert(exe@ =~= (State {
                        tape: pre.tape.update(pre.dp, pre.input[pre.cursor]),
                        cursor: pre.cursor + 1,
                        ..pre
                    }));
                }
            },
            Instruction::Block(block) => {
                if exe.dp >= exe.data.len() {
                    return Err(ExecuteError::TapeBoundsExceeded);
                }
                let ghost entry: State = exe@;

                loop
                    invariant
                        st0 == old(exe)@,
                        0 <= fp < instrs@.len(),
                        instrs@[fp as int] == Instruction::Block(*block),
                        entry == pre,
                        in_tape(pre),
                        run_seq(instrs@, 0, st0) == run_seq(instrs@, fp as int, pre),
                        exe@.steps < STEP_LIMIT,
                        run_loop(block@, entry, fuel_of(entry)) == run_loop(
                            block@,
                            exe@,
                            fuel_of(exe@),
                        ),
                    ensures
                        exe@.steps < STEP_LIMIT,
                        in_tape(exe@),
                        exe@.tape[exe@.dp] == 0,
                        run_loop(block@, entry, fuel_of(entry)) == Outcome::Next(exe@),
                    decreases STEP_LIMIT - exe.ni,
                {
                    if exe.dp >= exe.data.len() {
                        return Err(ExecuteError::TapeBoundsExceeded);
                    }
                    if exe.data[exe.dp] == 0 {
                        break ;
                    }
                    // A loop that makes no progress: fail at once rather
                    // than counting re-entry checks up to the ceiling.
                    if block.instructions.len() == 0 {
                        proof {
                            lemma_empty_loop(block@, exe@, fuel_of(exe@));
                            assert(run_loop(block@, exe@, fuel_of(exe@)) == Outcome::Abort(
                                ExecuteError::InfiniteLoop,
                            ));
                            assert(run_loop(block@, pre, fuel_of(pre)) == Outcome::Abort(
                                ExecuteError::InfiniteLoop,
                            ));
                            assert(run_instr(instrs@[fp as int], pre) == Outcome::Abort(
                                ExecuteError::InfiniteLoop,
                            ));
                            assert(run_seq(instrs@, fp as int, pre) == Outcome::Abort(
                                ExecuteError::InfiniteLoop,
                            ));
                            assert(run_seq(instrs@, 0, st0) == Outcome::Abort(
                                ExecuteError::InfiniteLoop,
                            ));
                        }
                        return Err(ExecuteError::InfiniteLoop);
                    }
                    let ghost cur: State = exe@;
                    proof {
                        assert(decreases_to!(instrs@ => instrs@[fp as int]));
                        assert(decreases_to!(instrs@[fp as int] => *block));
                    }
                    match block.execute(exe) {
                        Err(e) => {
                            return Err(e);
                        },
                        Ok(()) => {},
                    }
                    let ghost mid: State = exe@;
                    exe.ni = exe.ni + 1;
                    if exe.ni >= STEP_LIMIT {
                        proof {
                            assert(tick(mid) == Outcome::Abort(ExecuteError::InfiniteLoop));
                        }
                        return Err(ExecuteError::InfiniteLoop);
                    }
                    proof {
                        assert(tick(mid) == Outcome::Next(exe@));
                        lemma_mono_seq(block@, 0, cur);
                        lemma_loop_fuel(
                            block@,
                            exe@,
                            (fuel_of(cur) - 1) as nat,
                            fuel_of(exe@),
                        );
                    }
                }
            },
        }

        let ghost mid: State = exe@;
        proof {
            assert(run_instr(inst, pre) == Outcome::Next(mid));
        }
        exe.ni = exe.ni + 1;
        if exe.ni >= STEP_LIMIT {
            proof {
                assert(tick(mid) == Outcome::Abort(ExecuteError::InfiniteLoop));
            }
            return Err(ExecuteError::InfiniteLoop);
        }
        proof {
            assert(tick(mid) == Outcome::Next(exe@));
        }
        fp = fp + 1;
    }

    Ok(())
}

impl Block {
    /// Dispatches the body of this loop once.
    fn execute(&self, exe: &mut Execution) -> (r: Result<(), ExecuteError>)
        requires
            old(exe)@.steps < STEP_LIMIT,
        ensures
            match r {
                Ok(()) => run_seq(self@, 0, old(exe)@) == Outcome::Next(final(exe)@)
                    && final(exe)@.steps < STEP_LIMIT,
                Err(e) => run_seq(self@, 0, old(exe)@) == Outcome::Abort(e),
            },
        decreases self,
    {
        exec_seq(&self.instructions, exe)
    }
}

impl Program {
    /// Runs the program against the given input bytes and data tape, and
    /// returns the output decoded as text — or the error the run aborted
    /// with, exactly as [`spec_execute`] lays down.
    pub fn execute(&self, input: Vec<u8>, data: Vec<u8>) -> (r: Result<String, ExecuteError>)
        ensures
            ({
                let outcome = spec_execute(self@, input@, data@);
                match r {
                    Ok(text) => outcome == Ok::<Seq<char>, ExecuteError>(text@),
                    Err(e) => outcome == Err::<Seq<char>, ExecuteError>(e),
                }
            }),
    {
        let ghost input0: Seq<u8> = input@;
        let ghost tape0: Seq<u8> = data@;
        let mut exe = Execution { input, data, output: Vec::new(), ip: 0, dp: 0, ni: 0 };
        proof {
            assert(exe@ =~= init_state(input0, tape0));
        }
        match exec_seq(&self.instructions, &mut exe) {
            Err(e) => Err(e),
            Ok(()) => {
                match bytes_to_string(exe.output) {
                    Some(text) => Ok(text),
                    None => Err(ExecuteError::MalformedOutput),
                }
            },
        }
    }
}

} // verus!
